use vstd::prelude::*;

verus! {

/// The text `input` laid out in exactly `width` characters: left-justified and
/// padded with spaces when shorter, cut to its first `width` characters when
/// longer.
pub open spec fn fit_to_width(input: Seq<char>, width: nat) -> Seq<char> {
    if input.len() < width {
        input + Seq::new((width - input.len()) as nat, |i: int| ' ')
    } else {
        input.subrange(0, width as int)
    }
}

/// Formats a string to a fixed width for one row of the display.
///
/// Shorter text is padded on the right with spaces; longer text is truncated
/// to its first `width` characters, so the result always has `width`
/// characters.
pub fn format_string(input: &str, width: usize) -> (r: String)
    ensures
        r@ == fit_to_width(input@, width as nat),
        r@.len() == width,
        input@.len() < width ==> r@.subrange(0, input@.len() as int) == input@,
        input@.len() < width ==> forall|i: int|
            input@.len() <= i < width ==> #[trigger] r@[i] == ' ',
        input@.len() >= width ==> r@ == input@.subrange(0, width as int),
{
    let n = input.unicode_len();
    if n >= width {
        let cut = input.substring_char(0, width);
        return String::from_str(cut);
    }
    let mut r = String::from_str(input);
    let mut k: usize = n;
    while k < width
        invariant
            n <= k <= width,
            n == input@.len(),
            r@ == input@ + Seq::new((k - n) as nat, |i: int| ' '),
        decreases width - k,
    {
        proof {
            reveal_strlit(" ");
        }
        r.append(" ");
        k = k + 1;
        assert(r@ =~= input@ + Seq::new((k - n) as nat, |i: int| ' '));
    }
    assert(r@.subrange(0, n as int) =~= input@);
    r
}

} // verus!
