//! Reading a hardware address written as colon-separated hexadecimal octets.
use crate::hex::{
    all_hex, hex_digit, hex_digit_value, hex_value, is_hex_digit, lemma_hex_digit_at_most_15,
    lemma_hex_value_prefix,
};
use vstd::prelude::*;

verus! {

/// The character that separates the octets of an address.
pub const SEPARATOR: char = ':';

/// The number of octets in a hardware address.
pub const MAC_LEN: usize = 6;

/// The pieces of `s` between separators, in order. Every separator ends one piece and
/// starts the next, so there is always one piece more than there are separators, and a
/// piece may be empty.
pub open spec fn split_segments(s: Seq<char>) -> Seq<Seq<char>>
    decreases s.len(),
{
    if s.len() == 0 {
        seq![Seq::empty()]
    } else {
        let prev = split_segments(s.drop_last());
        if s.last() == SEPARATOR {
            prev.push(Seq::empty())
        } else {
            prev.update(prev.len() - 1, prev.last().push(s.last()))
        }
    }
}

/// Why an address could not be read. `index` counts octets from zero.
#[derive(Debug, Clone, Copy, PartialEq, Eq, Structural)]
pub enum MacParseError {
    /// The address does not have exactly six octets.
    WrongSegmentCount,
    /// An octet has no digits.
    EmptySegment { index: usize },
    /// An octet holds a character that is not a hexadecimal digit.
    InvalidDigit { index: usize },
    /// An octet's digits spell a number above 255.
    OutOfRange { index: usize },
}

/// What is wrong with the octet `seg` found at position `index`, if anything. An empty
/// octet is reported as such, then a stray character, then a value too large.
pub open spec fn segment_error(seg: Seq<char>, index: usize) -> Option<MacParseError> {
    if seg.len() == 0 {
        Some(MacParseError::EmptySegment { index })
    } else if !all_hex(seg) {
        Some(MacParseError::InvalidDigit { index })
    } else if hex_value(seg) > 255 {
        Some(MacParseError::OutOfRange { index })
    } else {
        None
    }
}

/// The error of the first faulty octet among `segs[k..]`.
pub open spec fn first_error(segs: Seq<Seq<char>>, k: int) -> Option<MacParseError>
    decreases segs.len() - k,
{
    if k < 0 || k >= segs.len() {
        None
    } else if segment_error(segs[k], k as usize) is Some {
        segment_error(segs[k], k as usize)
    } else {
        first_error(segs, k + 1)
    }
}

/// The hardware address that `s` spells: its six octets, or the error of the first
/// faulty one, or `WrongSegmentCount` when `s` does not have six of them.
pub open spec fn mac_address_of(s: Seq<char>) -> Result<Seq<u8>, MacParseError> {
    let segs = split_segments(s);
    if segs.len() != MAC_LEN {
        Err(MacParseError::WrongSegmentCount)
    } else {
        match first_error(segs, 0) {
            Some(e) => Err(e),
            None => Ok(Seq::new(MAC_LEN as nat, |i: int| hex_value(segs[i]) as u8)),
        }
    }
}

/// An octet of one or two hexadecimal digits always fits in a byte, so it is never out
/// of range.
pub proof fn lemma_short_octet_in_range(seg: Seq<char>, index: usize)
    requires
        1 <= seg.len() <= 2,
        all_hex(seg),
    ensures
        hex_value(seg) <= 255,
        segment_error(seg, index) is None,
{
    let rest = seg.drop_last();
    assert(is_hex_digit(seg[seg.len() - 1]));
    lemma_hex_digit_at_most_15(seg.last());
    let low = hex_digit_value(seg.last()) as nat;
    assert(hex_value(seg) == hex_value(rest) * 16 + low);
    if rest.len() == 1 {
        assert(is_hex_digit(seg[0]));
        assert(rest.last() == seg[0]);
        lemma_hex_digit_at_most_15(seg[0]);
        assert(hex_value(rest.drop_last()) == 0);
        assert(hex_value(rest) <= 15);
    } else {
        assert(hex_value(rest) == 0);
    }
    let high = hex_value(rest);
    assert(high * 16 + low <= 255) by (nonlinear_arith)
        requires
            high <= 15,
            low <= 15,
    ;
}

/// The views of a sequence of character vectors.
pub open spec fn views(v: Seq<Vec<char>>) -> Seq<Seq<char>> {
    v.map_values(|x: Vec<char>| x@)
}

/// The characters of `s`, in order.
fn chars_of(s: &str) -> (r: Vec<char>)
    ensures
        r@ == s@,
{
    broadcast use vstd::string::group_string_axioms;
    let mut r: Vec<char> = Vec::new();
    for c in it: s.chars()
        invariant
            r@ == it.seq().take(it.index()),
            it.seq() == s@,
    {
        r.push(c);
        assert(r@ =~= it.seq().take(it.index() + 1));
    }
    assert(r@ =~= s@);
    r
}

/// Cuts `cs` at every separator.
fn split_at_separators(cs: &Vec<char>) -> (r: Vec<Vec<char>>)
    ensures
        views(r@) == split_segments(cs@),
{
    let mut done: Vec<Vec<char>> = Vec::new();
    let mut cur: Vec<char> = Vec::new();
    let mut i: usize = 0;
    assert(cs@.take(0) =~= Seq::<char>::empty());
    assert(views(done@).push(cur@) =~= split_segments(cs@.take(0)));
    while i < cs.len()
        invariant
            i <= cs.len(),
            views(done@).push(cur@) == split_segments(cs@.take(i as int)),
        decreases cs.len() - i,
    {
        let c = cs[i];
        let ghost prefix = cs@.take(i as int + 1);
        assert(prefix.drop_last() =~= cs@.take(i as int));
        assert(prefix.last() == c);
        if c == SEPARATOR {
            let ghost before = done@;
            done.push(cur);
            cur = Vec::new();
            assert(views(done@) =~= views(before).push(done@.last()@));
            assert(views(done@).push(cur@) =~= split_segments(prefix));
        } else {
            let ghost old_cur = cur@;
            cur.push(c);
            assert(views(done@).push(cur@) =~= views(done@).push(old_cur).update(
                done@.len() as int,
                old_cur.push(c),
            ));
        }
        i = i + 1;
    }
    assert(cs@.take(cs.len() as int) =~= cs@);
    let ghost before = done@;
    done.push(cur);
    assert(views(done@) =~= views(before).push(done@.last()@));
    done
}

/// Reads the octet `seg`, found at position `index` of an address.
pub fn parse_octet(seg: &Vec<char>, index: usize) -> (r: Result<u8, MacParseError>)
    ensures
        match r {
            Ok(b) => segment_error(seg@, index) is None && b as nat == hex_value(seg@),
            Err(e) => segment_error(seg@, index) == Some(e),
        },
{
    if seg.len() == 0 {
        return Err(MacParseError::EmptySegment { index });
    }
    let mut j: usize = 0;
    while j < seg.len()
        invariant
            j <= seg.len(),
            forall|k: int| 0 <= k < j ==> #[trigger] is_hex_digit(seg@[k]),
        decreases seg.len() - j,
    {
        if hex_digit(seg[j]).is_none() {
            return Err(MacParseError::InvalidDigit { index });
        }
        j = j + 1;
    }
    let mut value: u32 = 0;
    let mut j: usize = 0;
    while j < seg.len()
        invariant
            j <= seg.len(),
            all_hex(seg@),
            value as nat == hex_value(seg@.take(j as int)),
            value <= 255,
        decreases seg.len() - j,
    {
        let d = hex_digit(seg[j]).unwrap();
        let ghost t = seg@.take(j as int + 1);
        assert(t.drop_last() =~= seg@.take(j as int));
        value = value * 16 + d as u32;
        if value > 255 {
            proof {
                lemma_hex_value_prefix(seg@, j as int + 1);
            }
            return Err(MacParseError::OutOfRange { index });
        }
        j = j + 1;
    }
    assert(seg@.take(seg.len() as int) =~= seg@);
    Ok(value as u8)
}

/// Reads a hardware address written as six hexadecimal octets separated by colons,
/// such as `00:11:22:33:44:55`. Either case is accepted, and an octet may have any
/// number of digits as long as its value fits in a byte.
pub fn parse_mac_address(mac_address: &str) -> (r: Result<Vec<u8>, MacParseError>)
    ensures
        match r {
            Ok(v) => mac_address_of(mac_address@) == Ok::<Seq<u8>, MacParseError>(v@),
            Err(e) => mac_address_of(mac_address@) == Err::<Seq<u8>, MacParseError>(e),
        },
{
    let cs = chars_of(mac_address);
    let segs = split_at_separators(&cs);
    let ghost sv = views(segs@);
    if segs.len() != MAC_LEN {
        return Err(MacParseError::WrongSegmentCount);
    }
    let mut octets: Vec<u8> = Vec::new();
    let mut k: usize = 0;
    while k < MAC_LEN
        invariant
            sv == split_segments(mac_address@),
            sv == views(segs@),
            segs.len() == MAC_LEN,
            k <= MAC_LEN,
            octets.len() == k,
            forall|j: int| 0 <= j < k ==> octets@[j] == hex_value(#[trigger] sv[j]) as u8,
            first_error(sv, 0) == first_error(sv, k as int),
        decreases MAC_LEN - k,
    {
        assert(sv[k as int] == segs@[k as int]@);
        match parse_octet(&segs[k], k) {
            Ok(b) => {
                octets.push(b);
            },
            Err(e) => {
                return Err(e);
            },
        }
        k = k + 1;
    }
    assert(first_error(sv, MAC_LEN as int) is None);
    assert(octets@ =~= Seq::new(MAC_LEN as nat, |i: int| hex_value(sv[i]) as u8));
    Ok(octets)
}

} // verus!
