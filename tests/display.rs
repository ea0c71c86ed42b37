use roofpi::lcd::{BusOp, LcdService, ENABLE, LCD_BACKLIGHT, LCD_LINE_1, LCD_LINE_2};

fn nibble(b: u8) -> Vec<BusOp> {
    vec![
        BusOp::Write(b),
        BusOp::Sleep(500),
        BusOp::Write(b | 0x04),
        BusOp::Sleep(500),
        BusOp::Write(b & !0x04),
        BusOp::Sleep(500),
    ]
}

fn byte(high: u8, low: u8) -> Vec<BusOp> {
    let mut v = nibble(high);
    v.extend(nibble(low));
    v
}

#[test]
fn first_write_starts_the_controller() {
    let mut lcd = LcdService::new();
    assert!(!lcd.started());
    let ops = lcd.write("A", LCD_LINE_1);
    assert!(lcd.started());
    let mut expected = Vec::new();
    for (h, l) in [(0x38, 0x38), (0x38, 0x28), (0x08, 0x68), (0x08, 0xC8), (0x28, 0x88), (0x08, 0x18)] {
        expected.extend(byte(h, l));
    }
    expected.push(BusOp::Sleep(500));
    expected.extend(byte(0x88, 0x08));
    expected.extend(byte(0x49, 0x19));
    for _ in 0..15 {
        expected.extend(byte(0x29, 0x09));
    }
    assert_eq!(ops, expected);
}

#[test]
fn start_up_runs_once_over_many_writes() {
    let mut lcd = LcdService::new();
    let first = lcd.write("one", LCD_LINE_1);
    assert_eq!(first.len(), 6 * 12 + 1 + 17 * 12);
    for _ in 0..5 {
        let again = lcd.write("two", LCD_LINE_2);
        assert_eq!(again.len(), 17 * 12);
        assert_eq!(again, lcd.lcd_string("two", LCD_LINE_2));
        assert_eq!(again[0], BusOp::Write(0xC8));
    }
}

#[test]
fn row_text_is_sent_as_sixteen_bytes() {
    let lcd = LcdService::new();
    let ops = lcd.lcd_string("a much longer line than fits", LCD_LINE_2);
    assert_eq!(ops.len(), 17 * 12);
    assert_eq!(&ops[0..12], &byte(0xC8, 0x08)[..]);
    // 'a' is 0x61
    assert_eq!(&ops[12..24], &byte(0x69, 0x19)[..]);
}

#[test]
fn every_bus_byte_keeps_the_backlight_on() {
    let mut lcd = LcdService::new();
    let ops = lcd.write("CPU: ####      ", LCD_LINE_2);
    let mut writes = 0;
    for op in &ops {
        if let BusOp::Write(b) = op {
            assert_eq!(b & LCD_BACKLIGHT, LCD_BACKLIGHT);
            writes += 1;
        }
    }
    // each byte: two nibbles, each written plain, with enable, without enable
    assert_eq!(writes, (6 + 17) * 6);
}

#[test]
fn each_nibble_is_latched_by_one_enable_pulse() {
    let lcd = LcdService::new();
    let ops = lcd.lcd_string("x", LCD_LINE_1);
    for chunk in ops.chunks(6) {
        match (chunk[0], chunk[2], chunk[4]) {
            (BusOp::Write(n), BusOp::Write(up), BusOp::Write(down)) => {
                assert_eq!(n & ENABLE, 0);
                assert_eq!(up, n | ENABLE);
                assert_eq!(down, n);
            }
            _ => panic!("unexpected step order"),
        }
        assert_eq!(chunk[1], BusOp::Sleep(500));
        assert_eq!(chunk[3], BusOp::Sleep(500));
        assert_eq!(chunk[5], BusOp::Sleep(500));
    }
}

#[test]
fn utf8_text_is_sent_byte_by_byte() {
    let lcd = LcdService::new();
    let ops = lcd.lcd_string("é", LCD_LINE_1);
    // row command, two bytes of 'é', fifteen blanks
    assert_eq!(ops.len(), 18 * 12);
    assert_eq!(&ops[12..24], &byte(0xC9, 0x39)[..]);
    assert_eq!(&ops[24..36], &byte(0xA9, 0x99)[..]);
}

#[test]
fn ascii_row_is_sixteen_character_bytes() {
    let lcd = LcdService::new();
    for message in ["", "short", "exactly16chars!!", "far longer than one row of the display"] {
        let ops = lcd.lcd_string(message, LCD_LINE_1);
        let writes = ops.iter().filter(|op| matches!(op, BusOp::Write(_))).count();
        assert_eq!(writes, 17 * 6);
    }
}
