use tamal::lang::lower_to_asm;
const COMMAND_PROC: &str = "\
proc command(pkt: bytes, ndata: int, err: byte = 0x11) {
    frame {
        send pkt + crc8
        tar 2
        wait_state
        repeat ndata { recv _ }
        recv status0, status1
        expect crc else err
    }
}
";

fn oob_tam() -> String {
    format!(
        "const PUT_OOB = 0x06\n\n{COMMAND_PROC}\n\
test oob_msg {{
    config controller, x1, sck20, alert_pin
    command(
        pkt = [PUT_OOB, 0x21, 0x00, 0x04,
               0x10, 0x00, 0x01, 0xAB],
        ndata = 0,
    )
    pass
}}
"
    )
}

fn peripheral_tam() -> String {
    format!(
        "const PUT_IORD1 = 0x44\n\
fn iord_hdr(op: byte, addr: int) -> bytes {{ [op, hi(addr), lo(addr)] }}\n\n{COMMAND_PROC}\n\
test io_read {{
    config controller, x1, sck20, alert_pin
    command(iord_hdr(PUT_IORD1, 0x0064), 1)
    pass
}}
"
    )
}

fn virtual_wire_tam() -> String {
    format!(
        "const PUT_VWIRE = 0x04\n\
const VW_INDEX_SYS = 0x03\n\
const VW_PLTRST_HIGH = 0x22\n\n{COMMAND_PROC}\n\
test vwire_pltrst {{
    config controller, x1, sck20, alert_pin
    command(
        pkt = [PUT_VWIRE, 0x00, VW_INDEX_SYS, VW_PLTRST_HIGH],
        ndata = 0,
    )
    pass
}}
"
    )
}

fn flash_completion_tam() -> String {
    format!(
        "const PUT_FLASH_C = 0x08\n\
const CYCLE_SCMPL_D = 0x09\n\n{COMMAND_PROC}\n\
test flash_cmpl {{
    config controller, x1, sck20, alert_pin
    command([PUT_FLASH_C, CYCLE_SCMPL_D, 0x00, 0x04,
             0xDE, 0xAD, 0xBE, 0xEF], 0)
    pass
}}
"
    )
}


#[test]
fn oob_smbus_msg_lowers_to_the_expected_asm() {
    let text = lower_to_asm(&oob_tam()).expect("lower .tam");
    let expected = "\
.globl _start
_start:
\tset_config controller, x1, sck20, alert_pin
\tcs_assert
\tput_byte 0x06
\tput_byte 0x21
\tput_byte 0x00
\tput_byte 0x04
\tput_byte 0x10
\tput_byte 0x00
\tput_byte 0x01
\tput_byte 0xAB
\tput_byte 0xB1
\ttar 2
__wait0:
\tcrc_reset
\tget_byte x1
\tli x2, 0x0F
\tbeq x1, x2, __wait0
\tget_byte x1
\tget_byte x2
\tget_byte x3
\trdsr x3, crc
\tcs_deassert
\tbnez x3, __fail1
\thalt 0x00
__fail1:
\thalt 0x11
";
    assert_eq!(text, expected);
}


#[test]
fn peripheral_io_read_via_fn_and_proc_lowers_to_the_expected_asm() {
    let text = lower_to_asm(&peripheral_tam()).expect("lower .tam");
    let expected = "\
.globl _start
_start:
\tset_config controller, x1, sck20, alert_pin
\tcs_assert
\tput_byte 0x44
\tput_byte 0x00
\tput_byte 0x64
\tput_byte 0x16
\ttar 2
__wait0:
\tcrc_reset
\tget_byte x1
\tli x2, 0x0F
\tbeq x1, x2, __wait0
\tget_byte x1
\tget_byte x1
\tget_byte x2
\tget_byte x3
\trdsr x3, crc
\tcs_deassert
\tbnez x3, __fail1
\thalt 0x00
__fail1:
\thalt 0x11
";
    assert_eq!(text, expected);
}


#[test]
fn virtual_wire_pltrst_lowers_to_the_expected_asm() {
    let text = lower_to_asm(&virtual_wire_tam()).expect("lower .tam");
    let expected = "\
.globl _start
_start:
\tset_config controller, x1, sck20, alert_pin
\tcs_assert
\tput_byte 0x04
\tput_byte 0x00
\tput_byte 0x03
\tput_byte 0x22
\tput_byte 0x89
\ttar 2
__wait0:
\tcrc_reset
\tget_byte x1
\tli x2, 0x0F
\tbeq x1, x2, __wait0
\tget_byte x1
\tget_byte x2
\tget_byte x3
\trdsr x3, crc
\tcs_deassert
\tbnez x3, __fail1
\thalt 0x00
__fail1:
\thalt 0x11
";
    assert_eq!(text, expected);
}


#[test]
fn flash_completion_lowers_to_the_expected_asm() {
    let text = lower_to_asm(&flash_completion_tam()).expect("lower .tam");
    let expected = "\
.globl _start
_start:
\tset_config controller, x1, sck20, alert_pin
\tcs_assert
\tput_byte 0x08
\tput_byte 0x09
\tput_byte 0x00
\tput_byte 0x04
\tput_byte 0xDE
\tput_byte 0xAD
\tput_byte 0xBE
\tput_byte 0xEF
\tput_byte 0xE8
\ttar 2
__wait0:
\tcrc_reset
\tget_byte x1
\tli x2, 0x0F
\tbeq x1, x2, __wait0
\tget_byte x1
\tget_byte x2
\tget_byte x3
\trdsr x3, crc
\tcs_deassert
\tbnez x3, __fail1
\thalt 0x00
__fail1:
\thalt 0x11
";
    assert_eq!(text, expected);
}
