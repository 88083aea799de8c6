use tamal::assembler::assemble;
use tamal::lang::{compile, lower_to_asm};

#[test]
fn command_phase_byte_matches_hand_written_asm() {
    let tam = "const PUT_IORD1 = 0x44\n\
               test io {\n\
               \x20   cs_assert\n\
               \x20   send [PUT_IORD1, 0x00, 0x64] + crc8\n\
               \x20   tar 2\n\
               \x20   cs_deassert\n\
               \x20   halt 0x00\n\
               }\n";
    let reference = ".globl _start\n_start:\n\
                     \tcs_assert\n\
                     \tput_byte 0x44\n\tput_byte 0x00\n\tput_byte 0x64\n\tput_byte 0x16\n\
                     \ttar 2\n\tcs_deassert\n\thalt 0x00\n";
    let got = compile(tam).expect("compile .tam").instrs;
    let want = assemble(reference).expect("assemble ref").instrs;
    assert_eq!(got, want, "send+crc8 command phase must match hand-written text");
}

#[test]
fn crc_region_byte_matches_the_same_command_phase() {
    let tam = "test io {\n\
               \x20   cs_assert\n\
               \x20   crc_region {\n\
               \x20       send [0x44]\n\
               \x20       send [0x00, 0x64]\n\
               \x20   }\n\
               \x20   tar 2\n\
               \x20   cs_deassert\n\
               \x20   halt 0x00\n\
               }\n";
    let reference = ".globl _start\n_start:\n\
                     \tcs_assert\n\
                     \tput_byte 0x44\n\tput_byte 0x00\n\tput_byte 0x64\n\tput_byte 0x16\n\
                     \ttar 2\n\tcs_deassert\n\thalt 0x00\n";
    let got = compile(tam).expect("compile .tam").instrs;
    let want = assemble(reference).expect("assemble ref").instrs;
    assert_eq!(got, want, "crc_region must fold the same 0x16 as `+ crc8`");
}

#[test]
fn deliberate_wrong_crc_folds_to_xored_byte() {
    let tam = "test bad_crc {\n\
               \x20   send [0x44, 0x00, 0x64] ++ [crc8([0x44, 0x00, 0x64]) ^ 0xFF]\n\
               \x20   halt 0x00\n\
               }\n";
    let text = lower_to_asm(tam).expect("lower");
    assert!(text.contains("put_byte 0xE9"), "wrong CRC must fold to 0xE9:\n{text}");
    assert!(!text.contains("put_byte 0x16"), "the correct CRC must not appear");
}

#[test]
fn smoke_matches_hand_written_asm() {
    let prog = compile("test smoke {\n    pass\n}\n").expect("compile smoke");
    let reference = assemble(".globl _start\n_start:\n\thalt 0x00\n").expect("assemble ref");
    assert_eq!(prog.instrs, reference.instrs);
    assert_eq!(prog.instrs.len(), 1);
}
