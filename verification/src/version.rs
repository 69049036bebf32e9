//! Versions and the name of the subprotocol.
use std::str::FromStr;

use vstd::prelude::*;

use crate::text::{
    decimal, decimal_has_no_leading_zero, decimal_spells, push_decimal, unsigned_number,
};

verus! {

/// The version of this library.
pub const HL_VERSION: &'static str = "4.0.0";

/// The pieces of `s` between the dots.
pub open spec fn dot_pieces(s: Seq<char>) -> Seq<Seq<char>>
    decreases s.len(),
{
    if s.len() == 0 {
        seq![Seq::empty()]
    } else if s.last() == '.' {
        dot_pieces(s.drop_last()).push(Seq::empty())
    } else {
        let front = dot_pieces(s.drop_last());
        front.drop_last().push(front.last().push(s.last()))
    }
}

/// The number that a piece of a version spells, when it fits in 32 bits.
pub open spec fn version_number(s: Seq<char>) -> Option<u32> {
    match unsigned_number(s) {
        Some(n) => if n <= u32::MAX {
            Some(n as u32)
        } else {
            None
        },
        None => None,
    }
}

/// The version that `s` spells: three numbers with dots between them.
pub open spec fn spelled_version(s: Seq<char>) -> Option<(u32, u32, u32)> {
    let p = dot_pieces(s);
    if p.len() != 3 {
        None
    } else {
        match (version_number(p[0]), version_number(p[1]), version_number(p[2])) {
            (Some(major), Some(minor), Some(patch)) => Some((major, minor, patch)),
            _ => None,
        }
    }
}

/// `version::Version::from_str` reads three 32-bit numbers with dots between
/// them and fails on everything else.
#[verifier::external_body]
fn parse_version(s: &str) -> (r: Option<(u32, u32, u32)>)
    ensures
        r == spelled_version(s@),
{
    match version::Version::from_str(s) {
        Ok(v) => Some((v.major, v.minor, v.patch)),
        Err(_) => None,
    }
}

/// [`HL_VERSION`] spells a version.
pub proof fn own_version()
    ensures
        spelled_version(HL_VERSION@) == Some((4u32, 0u32, 0u32)),
{
    reveal_strlit("4.0.0");
    let s = HL_VERSION@;
    let (s0, s1, s2) = (Seq::<char>::empty(), seq!['4'], seq!['4', '.']);
    let (s3, s4) = (seq!['4', '.', '0'], seq!['4', '.', '0', '.']);
    assert(s =~= seq!['4', '.', '0', '.', '0']);
    assert(s.drop_last() =~= s4);
    assert(s4.drop_last() =~= s3);
    assert(s3.drop_last() =~= s2);
    assert(s2.drop_last() =~= s1);
    assert(s1.drop_last() =~= s0);
    let (four, zero) = (seq!['4'], seq!['0']);
    assert(dot_pieces(s0) =~= seq![s0]);
    assert(s0.push('4') =~= four && s0.push('0') =~= zero);
    assert(dot_pieces(s1) =~= seq![four]);
    assert(dot_pieces(s2) =~= seq![four, s0]);
    assert(dot_pieces(s3) =~= seq![four, zero]);
    assert(dot_pieces(s4) =~= seq![four, zero, s0]);
    assert(dot_pieces(s) =~= seq![four, zero, zero]);
    decimal_spells(4);
    decimal_spells(0);
    assert(decimal(4) =~= four && decimal(0) =~= zero);
}

/// The major version of this library, which decides who can talk to whom.
pub fn major_version() -> (r: u32)
    ensures
        spelled_version(HL_VERSION@) is Some,
        r == (spelled_version(HL_VERSION@)->0).0,
{
    proof {
        own_version();
    }
    match parse_version(HL_VERSION) {
        Some(v) => v.0,
        None => 0,
    }
}

/// The name of the subprotocol at a major version.
pub open spec fn protocol_name(major: u32) -> Seq<char> {
    seq!['h', 'l', '/'] + decimal(major as nat)
}

/// The name of the subprotocol at a major version.
pub fn version_string(major: u32) -> (r: String)
    ensures
        r@ == protocol_name(major),
{
    let mut s = String::new();
    s.push('h');
    s.push('l');
    s.push('/');
    push_decimal(&mut s, major);
    assert(s@ =~= protocol_name(major));
    s
}

/// A text without dots is one piece.
proof fn dotless_is_one_piece(s: Seq<char>)
    requires
        !s.contains('.'),
    ensures
        dot_pieces(s) == seq![s],
    decreases s.len(),
{
    if s.len() > 0 {
        let front = s.drop_last();
        assert(s.contains(s[s.len() - 1]));
        assert forall|i: int| 0 <= i < front.len() implies front[i] != '.' by {
            assert(s.contains(s[i]));
        }
        dotless_is_one_piece(front);
        assert(front.push(s.last()) =~= s);
        assert(dot_pieces(s) =~= seq![s]);
    } else {
        assert(s =~= Seq::empty());
    }
}

/// A dot and a text without dots add that text as a piece.
proof fn dot_adds_a_piece(a: Seq<char>, b: Seq<char>)
    requires
        !b.contains('.'),
    ensures
        dot_pieces(a + seq!['.'] + b) == dot_pieces(a).push(b),
    decreases b.len(),
{
    let s = a + seq!['.'] + b;
    if b.len() == 0 {
        assert(s.drop_last() =~= a);
        assert(b =~= Seq::empty());
        assert(dot_pieces(s) =~= dot_pieces(a).push(b));
    } else {
        let front = b.drop_last();
        assert(b.contains(b[b.len() - 1]));
        assert forall|i: int| 0 <= i < front.len() implies front[i] != '.' by {
            assert(b.contains(b[i]));
        }
        dot_adds_a_piece(a, front);
        assert(s.drop_last() =~= a + seq!['.'] + front);
        assert(front.push(b.last()) =~= b);
        assert(dot_pieces(s) =~= dot_pieces(a).push(b));
    }
}

/// There is always a piece, and no piece holds a dot; when there are several,
/// the last dot parts the last of them from the text that the others make up.
proof fn last_dot_parts(s: Seq<char>) -> (front: Seq<char>)
    ensures
        dot_pieces(s).len() > 0,
        !dot_pieces(s).last().contains('.'),
        dot_pieces(s).len() == 1 ==> dot_pieces(s)[0] == s,
        dot_pieces(s).len() > 1 ==> s == front + seq!['.'] + dot_pieces(s).last() && dot_pieces(
            front,
        ) == dot_pieces(s).drop_last(),
    decreases s.len(),
{
    if s.len() == 0 {
        assert(s =~= Seq::empty());
        s
    } else if s.last() == '.' {
        let front = s.drop_last();
        let f = last_dot_parts(front);
        assert(s =~= front + seq!['.'] + Seq::<char>::empty());
        assert(dot_pieces(s).drop_last() =~= dot_pieces(front));
        front
    } else {
        let front = s.drop_last();
        let f = last_dot_parts(front);
        let before = dot_pieces(front);
        let last = before.last().push(s.last());
        assert(dot_pieces(s).last() == last);
        assert forall|i: int| 0 <= i < last.len() implies last[i] != '.' by {
            if i < before.last().len() {
                assert(before.last().contains(before.last()[i]));
            }
        }
        assert(s =~= front.push(s.last()));
        if before.len() > 1 {
            assert(s =~= f + seq!['.'] + last);
            assert(dot_pieces(s).drop_last() =~= before.drop_last());
        }
        f
    }
}

/// Three texts without dots, joined by dots, spell a version exactly when each
/// of them spells a number of 32 bits, and then the version of these numbers.
pub proof fn versions_are_three_numbers(major: Seq<char>, minor: Seq<char>, patch: Seq<char>)
    requires
        !major.contains('.'),
        !minor.contains('.'),
        !patch.contains('.'),
    ensures
        ({
            let s = major + seq!['.'] + minor + seq!['.'] + patch;
            let (a, b, c) = (
                unsigned_number(major),
                unsigned_number(minor),
                unsigned_number(patch),
            );
            spelled_version(s) == (if a is Some && b is Some && c is Some && a->0 <= u32::MAX
                && b->0 <= u32::MAX && c->0 <= u32::MAX {
                Some((a->0 as u32, b->0 as u32, c->0 as u32))
            } else {
                None
            })
        }),
{
    dotless_is_one_piece(major);
    dot_adds_a_piece(major, minor);
    dot_adds_a_piece(major + seq!['.'] + minor, patch);
    let s = major + seq!['.'] + minor + seq!['.'] + patch;
    assert(dot_pieces(s) =~= seq![major, minor, patch]);
}

/// What spells a version is three texts without dots, joined by dots.
pub proof fn versions_have_two_dots(s: Seq<char>)
    requires
        spelled_version(s) is Some,
    ensures
        exists|major: Seq<char>, minor: Seq<char>, patch: Seq<char>|
            s == #[trigger] (major + seq!['.'] + minor + seq!['.'] + patch) && !major.contains('.')
                && !minor.contains('.') && !patch.contains('.'),
{
    let f = last_dot_parts(s);
    let g = last_dot_parts(f);
    let h = last_dot_parts(g);
    let p = dot_pieces(s);
    assert(dot_pieces(f) =~= seq![p[0], p[1]]);
    assert(dot_pieces(g) =~= seq![p[0]]);
    assert(s == p[0] + seq!['.'] + p[1] + seq!['.'] + p[2]);
    assert(!p[0].contains('.') && !p[1].contains('.') && !p[2].contains('.'));
}

/// The name of the subprotocol is `hl/` and the major version in decimal: the
/// digits spell the version again.
pub proof fn protocol_name_spells_its_version(major: u32)
    ensures
        protocol_name(major).len() > 3,
        protocol_name(major).subrange(0, 3) == "hl/"@,
        protocol_name(major)[3] != '+',
        unsigned_number(
            protocol_name(major).subrange(3, protocol_name(major).len() as int),
        ) == Some(major as nat),
        protocol_name(major)[3] == '0' ==> protocol_name(major).len() == 4,
{
    reveal_strlit("hl/");
    let name = protocol_name(major);
    decimal_spells(major as nat);
    decimal_has_no_leading_zero(major as nat);
    assert(name.subrange(0, 3) =~= "hl/"@);
    assert(name.subrange(3, name.len() as int) =~= decimal(major as nat));
    assert(name[3] == decimal(major as nat)[0]);
}

} // verus!
