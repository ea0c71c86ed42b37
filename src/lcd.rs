use vstd::prelude::*;
use vstd::utf8::{encode_utf8, is_ascii_chars, is_ascii_chars_encode_utf8};
use crate::utils::{fit_to_width, format_string};

verus! {

/// Characters per display row.
pub const LCD_WIDTH: usize = 16;

/// Mode bit of a byte that is a character to show.
pub const LCD_CHR: u8 = 1;

/// Mode bit of a byte that is a command to the controller.
pub const LCD_CMD: u8 = 0;

/// Command that moves the cursor to the start of the first row.
pub const LCD_LINE_1: u8 = 0x80;

/// Command that moves the cursor to the start of the second row.
pub const LCD_LINE_2: u8 = 0xC0;

/// Expander bit that keeps the backlight on.
pub const LCD_BACKLIGHT: u8 = 0x08;

/// Expander bit wired to the controller's enable line.
pub const ENABLE: u8 = 0b00000100;

/// Bus address of the display's expander.
pub const SLAVE_ADDR: u16 = 0x27;

/// Width of the enable pulse, in microseconds.
pub const E_PULSE: u64 = 500;

/// Settle time around the enable pulse, in microseconds.
pub const E_DELAY: u64 = 500;

/// One step of the bus protocol, in the order it must be carried out.
#[derive(Clone, Copy, Debug, PartialEq, Eq, Structural)]
pub enum BusOp {
    /// Write one byte to the expander.
    Write(u8),
    /// Wait the given number of microseconds.
    Sleep(u64),
}

/// Latching a nibble already on the bus: settle, raise enable, hold, lower
/// enable, settle.
pub open spec fn toggle_ops(bits: u8) -> Seq<BusOp> {
    seq![
        BusOp::Sleep(E_DELAY),
        BusOp::Write(bits | ENABLE),
        BusOp::Sleep(E_PULSE),
        BusOp::Write(bits & !ENABLE),
        BusOp::Sleep(E_DELAY),
    ]
}

/// The expander byte carrying the high half of `bits`.
pub open spec fn high_nibble(bits: u8, mode: u8) -> u8 {
    mode | (bits & 0xF0) | LCD_BACKLIGHT
}

/// The expander byte carrying the low half of `bits`.
pub open spec fn low_nibble(bits: u8, mode: u8) -> u8 {
    mode | ((bits << 4u8) & 0xF0) | LCD_BACKLIGHT
}

/// Sending one byte: the high nibble, latched, then the low nibble, latched.
pub open spec fn byte_ops(bits: u8, mode: u8) -> Seq<BusOp> {
    let h = high_nibble(bits, mode);
    let l = low_nibble(bits, mode);
    seq![BusOp::Write(h)] + toggle_ops(h) + seq![BusOp::Write(l)] + toggle_ops(l)
}

/// Sending each byte of `bytes` in turn.
pub open spec fn bytes_ops(bytes: Seq<u8>, mode: u8) -> Seq<BusOp>
    decreases bytes.len(),
{
    if bytes.len() == 0 {
        seq![]
    } else {
        bytes_ops(bytes.drop_last(), mode) + byte_ops(bytes.last(), mode)
    }
}

/// The controller's start-up: six commands, then one more settle time.
pub open spec fn init_ops() -> Seq<BusOp> {
    byte_ops(0x33, LCD_CMD) + byte_ops(0x32, LCD_CMD) + byte_ops(0x06, LCD_CMD) + byte_ops(
        0x0C,
        LCD_CMD,
    ) + byte_ops(0x28, LCD_CMD) + byte_ops(0x01, LCD_CMD) + seq![BusOp::Sleep(E_DELAY)]
}

/// The bytes shown on a row for `message`: the message fitted to the row's
/// width, in UTF-8. An ASCII message gives one byte per column; a character
/// outside ASCII goes out as its several UTF-8 bytes, each of which the
/// controller shows as one glyph of its own character set, so such a row can
/// run past the sixteenth column.
pub open spec fn row_bytes(message: Seq<char>) -> Seq<u8> {
    encode_utf8(fit_to_width(message, LCD_WIDTH as nat))
}

/// Showing `message` on the row that the command `line` selects.
pub open spec fn string_ops(message: Seq<char>, line: u8) -> Seq<BusOp> {
    byte_ops(line, LCD_CMD) + bytes_ops(row_bytes(message), LCD_CHR)
}

/// One `write` on a session: start-up where it has not run yet, then the row.
pub open spec fn write_ops(started: bool, message: Seq<char>, line: u8) -> Seq<BusOp> {
    if started {
        string_ops(message, line)
    } else {
        init_ops() + string_ops(message, line)
    }
}

/// All the bus steps of a run of writes on one session, from the given state.
pub open spec fn session_ops(started: bool, writes: Seq<(Seq<char>, u8)>) -> Seq<BusOp>
    decreases writes.len(),
{
    if writes.len() == 0 {
        seq![]
    } else {
        write_ops(started, writes[0].0, writes[0].1) + session_ops(true, writes.drop_first())
    }
}

/// The rows of a run of writes, one after the other, with no start-up.
pub open spec fn rows_ops(writes: Seq<(Seq<char>, u8)>) -> Seq<BusOp>
    decreases writes.len(),
{
    if writes.len() == 0 {
        seq![]
    } else {
        string_ops(writes[0].0, writes[0].1) + rows_ops(writes.drop_first())
    }
}

/// Over any run of writes on one session, the controller's start-up is issued
/// exactly once, before anything else, on a session that had not started, and
/// never on one that had: the rest is the rows alone.
pub proof fn lemma_init_once(writes: Seq<(Seq<char>, u8)>)
    ensures
        session_ops(true, writes) == rows_ops(writes),
        writes.len() > 0 ==> session_ops(false, writes) == init_ops() + rows_ops(writes),
    decreases writes.len(),
{
    if writes.len() > 0 {
        lemma_init_once(writes.drop_first());
        assert(session_ops(false, writes) =~= init_ops() + rows_ops(writes));
    }
}

/// Every byte goes out as two nibble transfers, high half first: each puts
/// the nibble on the bus with the enable bit low, then raises and lowers the
/// enable bit once. Every byte written to the expander keeps the backlight
/// bit set, and the low bits carry the byte's mode.
pub proof fn lemma_byte_transfer(bits: u8, mode: u8)
    requires
        mode == LCD_CMD || mode == LCD_CHR,
    ensures
        ({
            let ops = byte_ops(bits, mode);
            let h = high_nibble(bits, mode);
            let l = low_nibble(bits, mode);
            &&& ops.len() == 12
            &&& ops[0] == BusOp::Write(h)
            &&& ops.subrange(1, 6) == toggle_ops(h)
            &&& ops[6] == BusOp::Write(l)
            &&& ops.subrange(7, 12) == toggle_ops(l)
            &&& h >> 4u8 == bits >> 4u8
            &&& l >> 4u8 == bits & 0x0F
            &&& (h & 0xF0) | ((l & 0xF0) >> 4u8) == bits
            &&& h & 0x0F == mode | LCD_BACKLIGHT
            &&& l & 0x0F == mode | LCD_BACKLIGHT
            &&& h & ENABLE == 0
            &&& l & ENABLE == 0
            &&& (h | ENABLE) & ENABLE == ENABLE
            &&& (l | ENABLE) & ENABLE == ENABLE
            &&& forall|i: int|
                0 <= i < 12 && (#[trigger] ops[i] is Write) ==> ops[i]->Write_0 & LCD_BACKLIGHT
                    == LCD_BACKLIGHT
        }),
{
    let ops = byte_ops(bits, mode);
    let h = high_nibble(bits, mode);
    let l = low_nibble(bits, mode);
    assert(ops.subrange(1, 6) =~= toggle_ops(h));
    assert(ops.subrange(7, 12) =~= toggle_ops(l));
    assert(h >> 4u8 == bits >> 4u8 && h & 0x0F == mode | 8u8 && h & 4u8 == 0 && (h | 4u8) & 4u8
        == 4u8 && h & 8u8 == 8u8 && (h | 4u8) & 8u8 == 8u8 && (h & !4u8) & 8u8 == 8u8)
        by (bit_vector)
        requires
            h == mode | (bits & 0xF0u8) | 8u8,
            mode == 0u8 || mode == 1u8,
    ;
    assert((h & 0xF0) | ((l & 0xF0) >> 4u8) == bits) by (bit_vector)
        requires
            h == mode | (bits & 0xF0u8) | 8u8,
            l == mode | ((bits << 4u8) & 0xF0u8) | 8u8,
            mode == 0u8 || mode == 1u8,
    ;
    assert(l >> 4u8 == bits & 0x0F && l & 0x0F == mode | 8u8 && l & 4u8 == 0 && (l | 4u8) & 4u8
        == 4u8 && l & 8u8 == 8u8 && (l | 4u8) & 8u8 == 8u8 && (l & !4u8) & 8u8 == 8u8)
        by (bit_vector)
        requires
            l == mode | ((bits << 4u8) & 0xF0u8) | 8u8,
            mode == 0u8 || mode == 1u8,
    ;
}

proof fn lemma_bytes_ops_len(bytes: Seq<u8>, mode: u8)
    ensures
        bytes_ops(bytes, mode).len() == 12 * bytes.len(),
    decreases bytes.len(),
{
    if bytes.len() > 0 {
        lemma_bytes_ops_len(bytes.drop_last(), mode);
    }
}

/// An ASCII message, longer than a row or not, puts exactly sixteen character
/// bytes on the row, after the row command: seventeen bytes of twelve steps.
pub proof fn lemma_ascii_row_length(message: Seq<char>, line: u8)
    requires
        is_ascii_chars(message),
    ensures
        row_bytes(message).len() == LCD_WIDTH,
        string_ops(message, line).len() == 12 * (LCD_WIDTH + 1),
{
    let text = fit_to_width(message, LCD_WIDTH as nat);
    assert(is_ascii_chars(text)) by {
        assert forall|i: int| 0 <= i < text.len() implies '\0' <= #[trigger] text[i] <= '\u{7f}' by {
            if i < message.len() {
                assert(text[i] == message[i]);
            }
        }
    }
    is_ascii_chars_encode_utf8(text);
    lemma_bytes_ops_len(row_bytes(message), LCD_CHR);
}

/// A session driving one display controller.
pub struct LcdService {
    started: bool,
}

impl LcdService {
    /// Whether the controller's start-up has been issued.
    pub closed spec fn is_started(&self) -> bool {
        self.started
    }

    /// A session on a controller that has not been started.
    pub fn new() -> (r: LcdService)
        ensures
            !r.is_started(),
    {
        LcdService { started: false }
    }

    /// Whether the controller's start-up has been issued.
    pub fn started(&self) -> (r: bool)
        ensures
            r == self.is_started(),
    {
        self.started
    }

    fn lcd_toggle_enable(bits: u8, ops: &mut Vec<BusOp>)
        ensures
            final(ops)@ == old(ops)@ + toggle_ops(bits),
    {
        let ghost start = ops@;
        ops.push(BusOp::Sleep(E_DELAY));
        ops.push(BusOp::Write(bits | ENABLE));
        ops.push(BusOp::Sleep(E_PULSE));
        ops.push(BusOp::Write(bits & !ENABLE));
        ops.push(BusOp::Sleep(E_DELAY));
        assert(ops@ =~= start + toggle_ops(bits));
    }

    fn lcd_byte(bits: u8, mode: u8, ops: &mut Vec<BusOp>)
        ensures
            final(ops)@ == old(ops)@ + byte_ops(bits, mode),
    {
        let ghost start = ops@;
        let bits_high = mode | (bits & 0xF0) | LCD_BACKLIGHT;
        let bits_low = mode | ((bits << 4u8) & 0xF0) | LCD_BACKLIGHT;
        ops.push(BusOp::Write(bits_high));
        Self::lcd_toggle_enable(bits_high, ops);
        ops.push(BusOp::Write(bits_low));
        Self::lcd_toggle_enable(bits_low, ops);
        assert(ops@ =~= start + byte_ops(bits, mode));
    }

    fn lcd_init(&mut self, ops: &mut Vec<BusOp>)
        ensures
            final(self).is_started(),
            final(ops)@ == old(ops)@ + (if old(self).is_started() {
                seq![]
            } else {
                init_ops()
            }),
    {
        let ghost start = ops@;
        if !self.started {
            Self::lcd_byte(0x33, LCD_CMD, ops);
            Self::lcd_byte(0x32, LCD_CMD, ops);
            Self::lcd_byte(0x06, LCD_CMD, ops);
            Self::lcd_byte(0x0C, LCD_CMD, ops);
            Self::lcd_byte(0x28, LCD_CMD, ops);
            Self::lcd_byte(0x01, LCD_CMD, ops);
            ops.push(BusOp::Sleep(E_DELAY));
            self.started = true;
            assert(ops@ =~= start + init_ops());
        } else {
            assert(ops@ =~= start + seq![]);
        }
    }

    /// The bus steps that show `message` on the row selected by `line`: the
    /// row command, then each byte of the message fitted to the row's width.
    pub fn lcd_string(&self, message: &str, line: u8) -> (r: Vec<BusOp>)
        ensures
            r@ == string_ops(message@, line),
    {
        let mut ops: Vec<BusOp> = Vec::new();
        Self::lcd_byte(line, LCD_CMD, &mut ops);
        let ghost head = ops@;
        let text = format_string(message, LCD_WIDTH);
        let bytes = text.as_str().as_bytes_vec();
        assert(bytes@ == row_bytes(message@));
        let mut k: usize = 0;
        assert(bytes@.subrange(0, 0) =~= Seq::<u8>::empty());
        while k < bytes.len()
            invariant
                k <= bytes@.len(),
                ops@ == head + bytes_ops(bytes@.subrange(0, k as int), LCD_CHR),
            decreases bytes@.len() - k,
        {
            Self::lcd_byte(bytes[k], LCD_CHR, &mut ops);
            k = k + 1;
            let ghost done = bytes@.subrange(0, k as int);
            assert(done.drop_last() =~= bytes@.subrange(0, k - 1));
        }
        assert(bytes@.subrange(0, bytes@.len() as int) =~= bytes@);
        ops
    }

    /// The bus steps for showing `message` on the row selected by `line`:
    /// the controller's start-up on the session's first write only, then the
    /// row. After it the session is started.
    pub fn write(&mut self, message: &str, line: u8) -> (r: Vec<BusOp>)
        ensures
            final(self).is_started(),
            r@ == write_ops(old(self).is_started(), message@, line),
    {
        let mut ops: Vec<BusOp> = Vec::new();
        self.lcd_init(&mut ops);
        let rest = self.lcd_string(message, line);
        let ghost init = ops@;
        let mut k: usize = 0;
        while k < rest.len()
            invariant
                k <= rest@.len(),
                ops@ == init + rest@.subrange(0, k as int),
            decreases rest@.len() - k,
        {
            ops.push(rest[k]);
            k = k + 1;
            assert(ops@ =~= init + rest@.subrange(0, k as int));
        }
        assert(rest@.subrange(0, rest@.len() as int) =~= rest@);
        assert(ops@ =~= write_ops(old(self).is_started(), message@, line));
        ops
    }
}

} // verus!
