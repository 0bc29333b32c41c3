//! Display names and case-insensitive name comparison.
//!
//! An entry's display name is its long name where fragments preceded it, else
//! its short 8.3 name. Comparison is at the UTF-16 code-unit level: ASCII
//! letters compare case-insensitively, every other code unit compares
//! exactly.

use vstd::prelude::*;

verus! {

/// ASCII case folding of one UTF-16 code unit: `A`..`Z` map to lower case,
/// everything else is unchanged.
pub open spec fn spec_fold16(u: u16) -> u16 {
    if 0x41 <= u <= 0x5a {
        (u + 0x20) as u16
    } else {
        u
    }
}

/// Whether two code-unit sequences are equal under ASCII case folding.
pub open spec fn spec_eq_ignore_ascii_case16(a: Seq<u16>, b: Seq<u16>) -> bool {
    &&& a.len() == b.len()
    &&& forall|i: int| 0 <= i < a.len() ==> spec_fold16(a[i]) == spec_fold16(b[i])
}

/// The UTF-16 encoding of one character.
pub open spec fn spec_utf16_of_char(c: char) -> Seq<u16> {
    if (c as u32) < 0x10000 {
        seq![(c as u32) as u16]
    } else {
        seq![
            (0xd800 + (c as u32 - 0x10000) / 0x400) as u16,
            (0xdc00 + (c as u32 - 0x10000) % 0x400) as u16,
        ]
    }
}

/// The UTF-16 encoding of a character sequence.
pub open spec fn spec_utf16(s: Seq<char>) -> Seq<u16>
    decreases s.len(),
{
    if s.len() == 0 {
        Seq::empty()
    } else {
        spec_utf16(s.drop_last()) + spec_utf16_of_char(s.last())
    }
}

/// Whether every byte of `name` is in the ASCII range.
pub open spec fn ascii_name(name: Seq<u8>) -> bool {
    forall|i: int| 0 <= i < name.len() ==> name[i] < 0x80
}

/// `s` with trailing space bytes removed.
pub open spec fn trim_trailing_spaces(s: Seq<u8>) -> Seq<u8>
    decreases s.len(),
{
    if s.len() == 0 {
        s
    } else if s.last() == 0x20u8 {
        trim_trailing_spaces(s.drop_last())
    } else {
        s
    }
}

/// The displayed short name built from the 11 raw name bytes: the trimmed
/// 8-byte base, then, if the trimmed 3-byte extension is not empty, a dot and
/// the extension.
pub open spec fn spec_short_name_bytes(name: Seq<u8>) -> Seq<u8>
    recommends
        name.len() == 11,
{
    let base = trim_trailing_spaces(name.subrange(0, 8));
    let ext = trim_trailing_spaces(name.subrange(8, 11));
    if ext.len() == 0 {
        base
    } else {
        base + seq![0x2eu8] + ext
    }
}

/// The byte sequence `b` widened to UTF-16 code units.
pub open spec fn widen16(b: Seq<u8>) -> Seq<u16> {
    Seq::new(b.len(), |i: int| b[i] as u16)
}

/// The displayed short name as characters (the name bytes are ASCII).
pub open spec fn spec_short_name_chars(name: Seq<u8>) -> Seq<char> {
    let b = spec_short_name_bytes(name);
    Seq::new(b.len(), |i: int| b[i] as char)
}

/// The display name of an entry, as UTF-16 code units: the reconstructed
/// long name if any fragments preceded it, else the short name.
pub open spec fn spec_display16(name: Seq<u8>, lfn: Seq<u16>) -> Seq<u16> {
    if lfn.len() > 0 {
        lfn
    } else {
        widen16(spec_short_name_bytes(name))
    }
}

/// ASCII case folding of one UTF-16 code unit.
pub(crate) fn fold16(u: u16) -> (r: u16)
    ensures
        r == spec_fold16(u),
{
    if 0x41 <= u && u <= 0x5a {
        u + 0x20
    } else {
        u
    }
}

/// Whether two code-unit sequences are equal under ASCII case folding.
pub(crate) fn eq_ignore_ascii_case16(a: &Vec<u16>, b: &Vec<u16>) -> (r: bool)
    ensures
        r == spec_eq_ignore_ascii_case16(a@, b@),
{
    if a.len() != b.len() {
        return false;
    }
    let mut i: usize = 0;
    while i < a.len()
        invariant
            i <= a@.len(),
            a@.len() == b@.len(),
            forall|j: int| 0 <= j < i ==> spec_fold16(a@[j]) == spec_fold16(b@[j]),
        decreases a@.len() - i,
    {
        if fold16(a[i]) != fold16(b[i]) {
            return false;
        }
        i = i + 1;
    }
    true
}

proof fn lemma_utf16_take(s: Seq<char>, i: int)
    requires
        0 <= i < s.len(),
    ensures
        spec_utf16(s.take(i + 1)) == spec_utf16(s.take(i)) + spec_utf16_of_char(s[i]),
{
    assert(s.take(i + 1).drop_last() =~= s.take(i));
    assert(s.take(i + 1).last() == s[i]);
}

/// Encodes a string to UTF-16 code units.
pub(crate) fn encode_utf16_str(s: &str) -> (r: Vec<u16>)
    ensures
        r@ == spec_utf16(s@),
{
    let n = s.unicode_len();
    let mut r: Vec<u16> = Vec::new();
    let mut i: usize = 0;
    while i < n
        invariant
            i <= n,
            n == s@.len(),
            r@ == spec_utf16(s@.take(i as int)),
        decreases n - i,
    {
        let c = s.get_char(i);
        let v = c as u32;
        proof {
            vstd::utf8::char_is_scalar(c);
        }
        if v < 0x10000 {
            r.push(v as u16);
        } else {
            let x = v - 0x10000;
            assert(x < 0x100000);
            r.push(0xd800 + (x / 0x400) as u16);
            r.push(0xdc00 + (x % 0x400) as u16);
        }
        proof {
            lemma_utf16_take(s@, i as int);
        }
        i = i + 1;
    }
    proof {
        assert(s@.take(n as int) =~= s@);
    }
    r
}

/// Whether every byte of `v` is in the ASCII range.
pub(crate) fn is_ascii_bytes(v: &Vec<u8>) -> (r: bool)
    ensures
        r == ascii_name(v@),
{
    let mut i: usize = 0;
    while i < v.len()
        invariant
            i <= v@.len(),
            forall|j: int| 0 <= j < i ==> v@[j] < 0x80,
        decreases v@.len() - i,
    {
        if v[i] >= 0x80 {
            return false;
        }
        i = i + 1;
    }
    true
}

/// The displayed short name, as bytes, built from the 11 raw name bytes.
pub(crate) fn short_name_bytes(name: &Vec<u8>) -> (r: Vec<u8>)
    requires
        name@.len() == 11,
    ensures
        r@ == spec_short_name_bytes(name@),
{
    let ghost base_src = name@.subrange(0, 8);
    let ghost ext_src = name@.subrange(8, 11);
    let mut base_end: usize = 8;
    proof {
        assert(base_src.take(8) =~= base_src);
    }
    while base_end > 0 && name[base_end - 1] == 0x20u8
        invariant
            base_end <= 8,
            name@.len() == 11,
            base_src == name@.subrange(0, 8),
            trim_trailing_spaces(base_src) == trim_trailing_spaces(base_src.take(base_end as int)),
        decreases base_end,
    {
        proof {
            assert(base_src.take(base_end as int).drop_last() =~= base_src.take(base_end - 1));
            assert(base_src.take(base_end as int).last() == name@[base_end - 1]);
        }
        base_end = base_end - 1;
    }
    proof {
        if base_end > 0 {
            assert(base_src.take(base_end as int).last() == name@[base_end - 1]);
            assert(trim_trailing_spaces(base_src.take(base_end as int)) == base_src.take(
                base_end as int,
            ));
        } else {
            assert(base_src.take(0) =~= Seq::<u8>::empty());
        }
    }
    let mut ext_end: usize = 11;
    proof {
        assert(ext_src.take(3) =~= ext_src);
    }
    while ext_end > 8 && name[ext_end - 1] == 0x20u8
        invariant
            8 <= ext_end <= 11,
            name@.len() == 11,
            ext_src == name@.subrange(8, 11),
            trim_trailing_spaces(ext_src) == trim_trailing_spaces(ext_src.take(ext_end - 8)),
        decreases ext_end,
    {
        proof {
            assert(ext_src.take(ext_end - 8).drop_last() =~= ext_src.take(ext_end - 9));
            assert(ext_src.take(ext_end - 8).last() == name@[ext_end - 1]);
        }
        ext_end = ext_end - 1;
    }
    proof {
        if ext_end > 8 {
            assert(ext_src.take(ext_end - 8).last() == name@[ext_end - 1]);
            assert(trim_trailing_spaces(ext_src.take(ext_end - 8)) == ext_src.take(ext_end - 8));
        } else {
            assert(ext_src.take(0) =~= Seq::<u8>::empty());
        }
    }
    let mut r: Vec<u8> = Vec::new();
    let mut i: usize = 0;
    while i < base_end
        invariant
            i <= base_end <= 8,
            name@.len() == 11,
            r@.len() == i,
            forall|j: int| 0 <= j < i ==> r@[j] == name@[j],
        decreases base_end - i,
    {
        r.push(name[i]);
        i = i + 1;
    }
    proof {
        assert(r@ =~= base_src.take(base_end as int));
    }
    if ext_end > 8 {
        let ghost with_base = r@;
        r.push(0x2eu8);
        let mut k: usize = 8;
        while k < ext_end
            invariant
                8 <= k <= ext_end <= 11,
                name@.len() == 11,
                r@.len() == with_base.len() + 1 + (k - 8),
                r@.subrange(0, with_base.len() as int) == with_base,
                r@[with_base.len() as int] == 0x2eu8,
                forall|j: int|
                    with_base.len() + 1 <= j < r@.len() ==> r@[j] == name@[j - with_base.len()
                        + 7],
            decreases ext_end - k,
        {
            r.push(name[k]);
            k = k + 1;
        }
        proof {
            assert(r@ =~= with_base + seq![0x2eu8] + ext_src.take(ext_end - 8));
        }
    }
    r
}

/// Widens ASCII/byte values to UTF-16 code units.
pub(crate) fn widen_bytes16(b: &Vec<u8>) -> (r: Vec<u16>)
    ensures
        r@ == widen16(b@),
{
    let mut r: Vec<u16> = Vec::new();
    let mut i: usize = 0;
    while i < b.len()
        invariant
            i <= b@.len(),
            r@.len() == i,
            forall|j: int| 0 <= j < i ==> r@[j] == b@[j] as u16,
        decreases b@.len() - i,
    {
        r.push(b[i] as u16);
        i = i + 1;
    }
    proof {
        assert(r@ =~= widen16(b@));
    }
    r
}

/// The display name of an entry as UTF-16 code units: the long name if any
/// fragments preceded it, else the widened short name.
pub(crate) fn display_name_units(name: &Vec<u8>, lfn: &Vec<u16>) -> (r: Vec<u16>)
    requires
        name@.len() == 11,
    ensures
        r@ == spec_display16(name@, lfn@),
{
    if lfn.len() > 0 {
        let mut r: Vec<u16> = Vec::new();
        let mut i: usize = 0;
        while i < lfn.len()
            invariant
                i <= lfn@.len(),
                r@ == lfn@.take(i as int),
            decreases lfn@.len() - i,
        {
            proof {
                assert(lfn@.take(i + 1) =~= lfn@.take(i as int).push(lfn@[i as int]));
            }
            r.push(lfn[i]);
            i = i + 1;
        }
        proof {
            assert(lfn@.take(lfn@.len() as int) =~= lfn@);
        }
        r
    } else {
        let b = short_name_bytes(name);
        widen_bytes16(&b)
    }
}

/// Relies on `String::from_utf8`: ASCII bytes are valid UTF-8 and decode to
/// one character per byte, each with the byte's code point.
#[verifier::external_body]
pub(crate) fn string_from_ascii(bytes: Vec<u8>) -> (r: String)
    requires
        ascii_name(bytes@),
    ensures
        r@.len() == bytes@.len(),
        forall|i: int| 0 <= i < bytes@.len() ==> r@[i] == bytes@[i] as char,
{
    match String::from_utf8(bytes) {
        Ok(s) => s,
        Err(_) => String::new(),
    }
}

/// Names the characters that `String::from_utf16_lossy` decodes from a
/// code-unit sequence; the result is a function of the units alone.
pub uninterp spec fn utf16_lossy_of(units: Seq<u16>) -> Seq<char>;

/// Relies on `String::from_utf16_lossy`: decodes a UTF-16 code-unit slice,
/// replacing invalid data with the replacement character. A sequence without
/// surrogate code units (0xD800..0xE000) is valid UTF-16 in which every unit
/// is one code point, so it decodes to one character per unit.
#[verifier::external_body]
pub(crate) fn string_from_utf16_lossy(units: &Vec<u16>) -> (r: String)
    ensures
        r@ == utf16_lossy_of(units@),
        (forall|i: int| 0 <= i < units@.len() ==> !(0xd800 <= #[trigger] units@[i] < 0xe000)) ==> {
            &&& r@.len() == units@.len()
            &&& forall|i: int| 0 <= i < units@.len() ==> r@[i] as u32 == units@[i] as u32
        },
{
    String::from_utf16_lossy(units.as_slice())
}

} // verus!
