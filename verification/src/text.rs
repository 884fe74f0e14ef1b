//! Text decoding: UTF-16 (as PSD Unicode strings store it) and lossy UTF-8
//! (as Pascal strings and keys store it).
use vstd::prelude::*;
use vstd::std_specs::iter::IteratorSpec;
use vstd::utf8::{decode_utf8, valid_utf8};

verus! {

/// A UTF-16 code unit that opens a surrogate pair.
pub open spec fn is_high_surrogate(u: u16) -> bool {
    0xD800 <= u && u < 0xDC00
}

/// A UTF-16 code unit that closes a surrogate pair.
pub open spec fn is_low_surrogate(u: u16) -> bool {
    0xDC00 <= u && u < 0xE000
}

/// `s` is well-formed UTF-16: every high surrogate is followed by a low
/// surrogate, and no low surrogate stands alone.
pub open spec fn utf16_valid(s: Seq<u16>) -> bool
    decreases s.len(),
{
    if s.len() == 0 {
        true
    } else if is_low_surrogate(s[0]) {
        false
    } else if is_high_surrogate(s[0]) {
        s.len() >= 2 && is_low_surrogate(s[1]) && utf16_valid(s.skip(2))
    } else {
        utf16_valid(s.skip(1))
    }
}

/// The characters that the UTF-16 code units `s` encode.
pub open spec fn utf16_decode(s: Seq<u16>) -> Seq<char>
    decreases s.len(),
{
    if s.len() == 0 {
        Seq::empty()
    } else if is_high_surrogate(s[0]) && s.len() >= 2 {
        seq![(0x1_0000 + (s[0] - 0xD800) * 0x400 + (s[1] - 0xDC00)) as char] + utf16_decode(
            s.skip(2),
        )
    } else {
        seq![s[0] as char] + utf16_decode(s.skip(1))
    }
}

/// Every byte of `bytes` is an ASCII byte.
pub open spec fn all_ascii(bytes: Seq<u8>) -> bool {
    forall|i: int| 0 <= i < bytes.len() ==> bytes[i] < 0x80
}

/// The characters of ASCII bytes, one per byte.
pub open spec fn ascii_chars(bytes: Seq<u8>) -> Seq<char> {
    bytes.map_values(|b: u8| b as char)
}

/// What `String::from_utf8_lossy` makes of `bytes`.
pub uninterp spec fn utf8_lossy(bytes: Seq<u8>) -> Seq<char>;

/// Calls `String::from_utf16`: the decoded string where `units` is valid
/// UTF-16, and `None` where it is not.
#[verifier::external_body]
pub(crate) fn string_from_utf16(units: &[u16]) -> (r: Option<String>)
    ensures
        r is Some <==> utf16_valid(units@),
        r matches Some(s) ==> s@ == utf16_decode(units@),
{
    String::from_utf16(units).ok()
}

/// Calls `String::from_utf8_lossy` and takes ownership of the result. Its
/// result is named by `utf8_lossy`; of it the contract states that valid UTF-8
/// decodes as such, and that ASCII bytes become the same characters. What
/// replaces invalid sequences is left unsaid.
#[verifier::external_body]
pub(crate) fn string_from_utf8_lossy(bytes: &[u8]) -> (s: String)
    ensures
        s@ == utf8_lossy(bytes@),
        valid_utf8(bytes@) ==> s@ == decode_utf8(bytes@),
        all_ascii(bytes@) ==> s@ == ascii_chars(bytes@),
{
    String::from_utf8_lossy(bytes).into_owned()
}

/// The UTF-16 code units that encode one character: itself below 0x10000,
/// else a surrogate pair.
pub open spec fn char_utf16(c: char) -> Seq<u16> {
    let c = c as u32;
    if c < 0x1_0000 {
        seq![c as u16]
    } else {
        seq![(0xD800 + (c - 0x1_0000) / 0x400) as u16, (0xDC00 + (c - 0x1_0000) % 0x400) as u16]
    }
}

/// The UTF-16 code units that encode the characters `s`.
pub open spec fn utf16_encode(s: Seq<char>) -> Seq<u16>
    decreases s.len(),
{
    if s.len() == 0 {
        Seq::empty()
    } else {
        char_utf16(s[0]) + utf16_encode(s.skip(1))
    }
}

/// Encoding one more character appends its code units.
proof fn lemma_utf16_encode_push(s: Seq<char>, c: char)
    ensures
        utf16_encode(s.push(c)) == utf16_encode(s) + char_utf16(c),
    decreases s.len(),
{
    if s.len() == 0 {
        assert(s.push(c).skip(1) =~= Seq::<char>::empty());
        assert(utf16_encode(Seq::<char>::empty()) == Seq::<u16>::empty());
        assert(utf16_encode(s.push(c)) =~= utf16_encode(s) + char_utf16(c));
    } else {
        lemma_utf16_encode_push(s.skip(1), c);
        assert(s.push(c).skip(1) =~= s.skip(1).push(c));
        assert(s.push(c)[0] == s[0]);
        let head = char_utf16(s[0]);
        let tail = utf16_encode(s.skip(1));
        assert(utf16_encode(s.push(c)) == head + (tail + char_utf16(c)));
        assert(head + (tail + char_utf16(c)) =~= (head + tail) + char_utf16(c));
    }
}

/// The UTF-16 code units of `s`, as `str::encode_utf16` gives them.
pub(crate) fn str_to_utf16(s: &str) -> (r: Vec<u16>)
    ensures
        r@ == utf16_encode(s@),
{
    broadcast use vstd::string::group_string_axioms;

    let mut r: Vec<u16> = Vec::new();
    let mut it = s.chars();
    let ghost mut done: Seq<char> = Seq::empty();
    loop
        invariant
            done + it.remaining() == s@,
            r@ == utf16_encode(done),
            it.decrease() is Some,
        ensures
            r@ == utf16_encode(s@),
        decreases it.decrease()->0,
    {
        let next = it.next();
        match next {
            Some(c) => {
                proof {
                    lemma_utf16_encode_push(done, c);
                    assert(done.push(c) + it.remaining() =~= s@);
                    done = done.push(c);
                }
                let v: u32 = c as u32;
                proof {
                    vstd::utf8::char_is_scalar(c);
                }
                if v < 0x1_0000 {
                    r.push(v as u16);
                } else {
                    let w: u32 = v - 0x1_0000;
                    r.push((0xD800 + w / 0x400) as u16);
                    r.push((0xDC00 + w % 0x400) as u16);
                }
                assert(r@ =~= utf16_encode(done));
            },
            None => {
                assert(done =~= s@);
                break;
            },
        }
    }
    r
}

/// Decoding the UTF-16 code units that encode characters gives back the
/// characters, and those units are valid UTF-16.
pub proof fn lemma_utf16_round_trip(s: Seq<char>)
    ensures
        utf16_valid(utf16_encode(s)),
        utf16_decode(utf16_encode(s)) == s,
    decreases s.len(),
{
    if s.len() > 0 {
        let rest = s.skip(1);
        lemma_utf16_round_trip(rest);
        let c = s[0] as u32;
        vstd::utf8::char_is_scalar(s[0]);
        vstd::utf8::char_u32_cast(s[0], s[0] as u32);
        let e = utf16_encode(s);
        let er = utf16_encode(rest);
        if c < 0x1_0000 {
            assert(e == seq![c as u16] + er);
            assert(e.skip(1) =~= er);
            assert(!is_low_surrogate(e[0]) && !is_high_surrogate(e[0]));
            assert(utf16_decode(e) == seq![e[0] as char] + utf16_decode(e.skip(1)));
            assert(e[0] as int == (s[0] as u32) as int);
            assert(e[0] as char == (s[0] as u32) as char);
            assert(utf16_decode(e) =~= s);
        } else {
            let q = (c - 0x1_0000) / 0x400;
            let r = (c - 0x1_0000) % 0x400;
            assert(0 <= q < 0x400);
            assert(0 <= r < 0x400);
            assert(q * 0x400 + r == c - 0x1_0000);
            let hi = (0xD800 + q) as u16;
            let lo = (0xDC00 + r) as u16;
            assert(e == seq![hi, lo] + er);
            assert(e.skip(2) =~= er);
            assert(is_high_surrogate(e[0]) && is_low_surrogate(e[1]));
            assert(utf16_decode(e) == seq![
                (0x1_0000 + (e[0] - 0xD800) * 0x400 + (e[1] - 0xDC00)) as char,
            ] + utf16_decode(e.skip(2)));
            assert((0x1_0000 + (e[0] - 0xD800) * 0x400 + (e[1] - 0xDC00)) == c);
            assert((0x1_0000 + (e[0] - 0xD800) * 0x400 + (e[1] - 0xDC00)) as char == s[0]);
            assert(utf16_decode(e) =~= s);
        }
    }
}

} // verus!
