use tamal::lang::lower_to_asm;

const PERIPHERAL_TAM: &str = "\
const PUT_IORD1 = 0x44

test io_read {
    config controller, x1, sck20, alert_pin
    frame {
        send [PUT_IORD1, 0x00, 0x64] + crc8
        tar 2
        wait_state
        recv data, status0, status1
        expect crc else 0x11
    }
    pass
}
";



#[test]
fn peripheral_io_read_lowers_to_the_expected_asm() {
    let text = lower_to_asm(PERIPHERAL_TAM).unwrap();
    let expected = "\
.globl _start
_start:
\tset_config controller, x1, sck20, alert_pin
\tcs_assert
\tput_byte 0x44
\tput_byte 0x00
\tput_byte 0x64
\tput_byte 0x16
\ttar 2
__wait0:
\tcrc_reset
\tget_byte x1
\tli x2, 0x0F
\tbeq x1, x2, __wait0
\tget_byte x1
\tget_byte x2
\tget_byte x3
\tget_byte x4
\trdsr x4, crc
\tcs_deassert
\tbnez x4, __fail1
\thalt 0x00
__fail1:
\thalt 0x11
";
    assert_eq!(text, expected);
}
