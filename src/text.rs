use vstd::prelude::*;
use vstd::string::StrSliceExecFns;

verus! {

/// The characters with the Unicode `White_Space` property.
pub open spec fn is_white_space(c: char) -> bool {
    let u = c as u32;
    ||| 0x9 <= u <= 0xd
    ||| u == 0x20
    ||| u == 0x85
    ||| u == 0xa0
    ||| u == 0x1680
    ||| 0x2000 <= u <= 0x200a
    ||| u == 0x2028
    ||| u == 0x2029
    ||| u == 0x202f
    ||| u == 0x205f
    ||| u == 0x3000
}

/// Relies on `char::is_whitespace`: true exactly for the characters that
/// have the Unicode `White_Space` property.
#[verifier::external_body]
fn char_is_whitespace(c: char) -> (r: bool)
    ensures
        r == is_white_space(c),
{
    c.is_whitespace()
}

/// `s` without its white space.
pub open spec fn stripped(s: Seq<char>) -> Seq<char> {
    s.filter(|c: char| !is_white_space(c))
}

/// The text with every white-space character removed.
pub fn strip_whitespaces(text: &Vec<char>) -> (r: Vec<char>)
    ensures
        r@ == stripped(text@),
{
    let mut r: Vec<char> = Vec::new();
    let mut i: usize = 0;
    while i < text.len()
        invariant
            i <= text@.len(),
            r@ == stripped(text@.take(i as int)),
        decreases text@.len() - i,
    {
        let c = text[i];
        proof {
            reveal(Seq::filter);
            assert(text@.take(i + 1).drop_last() =~= text@.take(i as int));
            assert(text@.take(i + 1).last() == c);
        }
        if !char_is_whitespace(c) {
            r.push(c);
        }
        i += 1;
    }
    proof {
        assert(text@.take(text@.len() as int) =~= text@);
    }
    r
}

/// `c`, with line feed and carriage return turned into spaces.
pub open spec fn enter_replaced(c: char) -> char {
    if c == '\n' || c == '\r' {
        ' '
    } else {
        c
    }
}

/// The text with each line feed and each carriage return replaced by a space,
/// every other character kept.
pub fn replace_enters(text: &Vec<char>) -> (r: Vec<char>)
    ensures
        r@ == text@.map_values(|c: char| enter_replaced(c)),
{
    let mut r: Vec<char> = Vec::new();
    let mut i: usize = 0;
    while i < text.len()
        invariant
            i <= text@.len(),
            r@.len() == i,
            forall|k: int| 0 <= k < i ==> #[trigger] r@[k] == enter_replaced(text@[k]),
        decreases text@.len() - i,
    {
        let c = text[i];
        if c == '\n' || c == '\r' {
            r.push(' ');
        } else {
            r.push(c);
        }
        i += 1;
    }
    assert(r@ =~= text@.map_values(|c: char| enter_replaced(c)));
    r
}

/// The characters that `String::from_utf8_lossy` makes of `bytes`.
pub uninterp spec fn utf8_lossy(bytes: Seq<u8>) -> Seq<char>;

/// Relies on `String::from_utf8_lossy`: its result depends on the bytes alone,
/// and no bytes give no characters.
#[verifier::external_body]
fn decode_lossy(bytes: &[u8]) -> (r: String)
    ensures
        r@ == utf8_lossy(bytes@),
        bytes@.len() == 0 ==> r@.len() == 0,
{
    String::from_utf8_lossy(bytes).into_owned()
}

/// The number of Unicode scalar values of a text read as UTF-8, each invalid
/// sequence counted as one replacement character.
pub fn text_length(bytes: &Vec<u8>) -> (r: usize)
    ensures
        r == utf8_lossy(bytes@).len(),
{
    let decoded = decode_lossy(bytes.as_slice());
    decoded.as_str().unicode_len()
}

} // verus!
