//! Nix version strings: parsing into comparable triples, and selecting the
//! version gates that a given library version satisfies.
use vstd::prelude::*;

verus! {

/// The pieces of `s` between `'.'` separators, as `str::split('.')` yields them:
/// there is always at least one piece, and a separator at either end gives an
/// empty piece.
pub open spec fn split_dots(s: Seq<char>) -> Seq<Seq<char>>
    decreases s.len(),
{
    if s.len() == 0 {
        seq![Seq::<char>::empty()]
    } else {
        let p = split_dots(s.drop_last());
        if s.last() == '.' {
            p.push(Seq::<char>::empty())
        } else {
            p.update(p.len() - 1, p.last().push(s.last()))
        }
    }
}

pub open spec fn is_digit(c: char) -> bool {
    '0' <= c && c <= '9'
}

pub open spec fn all_digits(t: Seq<char>) -> bool {
    forall|k: int| 0 <= k < t.len() ==> is_digit(#[trigger] t[k])
}

/// The value of a string of decimal digits.
pub open spec fn decimal(t: Seq<char>) -> nat
    decreases t.len(),
{
    if t.len() == 0 {
        0
    } else {
        decimal(t.drop_last()) * 10 + ((t.last() as u32 - '0' as u32) as nat)
    }
}

/// What `str::parse::<u32>` accepts: an optional `+`, then at least one
/// decimal digit, with a value that fits in `u32`.
pub open spec fn parse_u32(t: Seq<char>) -> Option<u32> {
    let d = if t.len() > 0 && t[0] == '+' {
        t.drop_first()
    } else {
        t
    };
    if d.len() > 0 && all_digits(d) && decimal(d) <= u32::MAX {
        Some(decimal(d) as u32)
    } else {
        None
    }
}

/// What `str::parse::<i32>` accepts: an optional `+` or `-`, then at least
/// one decimal digit, with a value that fits in `i32`.
pub open spec fn parse_i32(t: Seq<char>) -> Option<i32> {
    if t.len() > 0 && t[0] == '-' {
        let d = t.drop_first();
        if d.len() > 0 && all_digits(d) && decimal(d) <= 0x8000_0000 {
            Some((0 - decimal(d)) as i32)
        } else {
            None
        }
    } else {
        let d = if t.len() > 0 && t[0] == '+' {
            t.drop_first()
        } else {
            t
        };
        if d.len() > 0 && all_digits(d) && decimal(d) <= i32::MAX {
            Some(decimal(d) as i32)
        } else {
            None
        }
    }
}

/// Whether `t` holds the substring `pre`.
pub open spec fn has_pre(t: Seq<char>) -> bool {
    exists|k: int|
        0 <= k && k + 3 <= t.len() && #[trigger] t[k] == 'p' && t[k + 1] == 'r' && t[k + 2]
            == 'e'
}

/// A version string that `parse_version` accepts: its first two pieces are
/// numbers that fit in `u32`.
pub open spec fn version_well_formed(s: Seq<char>) -> bool {
    let p = split_dots(s);
    p.len() >= 2 && parse_u32(p[0]) is Some && parse_u32(p[1]) is Some
}

/// The patch component: `-1` for a pre-release third piece, else that piece
/// read as an `i32`, else `0`.
pub open spec fn patch_of(p: Seq<Seq<char>>) -> i32 {
    if p.len() > 2 {
        if has_pre(p[2]) {
            -1i32
        } else {
            match parse_i32(p[2]) {
                Some(v) => v,
                None => 0,
            }
        }
    } else {
        0
    }
}

/// The triple `(major, minor, patch)` that a well-formed version string
/// denotes.
pub open spec fn version_of(s: Seq<char>) -> (u32, u32, i32)
    recommends
        version_well_formed(s),
{
    let p = split_dots(s);
    (parse_u32(p[0]).unwrap(), parse_u32(p[1]).unwrap(), patch_of(p))
}

/// Lexicographic order on version triples, as tuples compare.
pub open spec fn version_ge(a: (u32, u32, i32), b: (u32, u32, i32)) -> bool {
    a.0 > b.0 || (a.0 == b.0 && (a.1 > b.1 || (a.1 == b.1 && a.2 >= b.2)))
}

proof fn lemma_decimal_grows(t: Seq<char>, c: char)
    requires
        is_digit(c),
    ensures
        decimal(t.push(c)) == decimal(t) * 10 + ((c as u32 - '0' as u32) as nat),
        decimal(t.push(c)) >= decimal(t),
{
    assert(t.push(c).drop_last() =~= t);
}

/// Reads `t[start..]` as decimal digits and returns the value when every
/// character is a digit, there is at least one, and the value is at most
/// `limit`.
fn parse_magnitude(t: &Vec<char>, start: usize, limit: u64) -> (r: Option<u64>)
    requires
        start <= t@.len(),
        limit <= u32::MAX,
    ensures
        ({
            let d = t@.subrange(start as int, t@.len() as int);
            r == if d.len() > 0 && all_digits(d) && decimal(d) <= limit {
                Some(decimal(d) as u64)
            } else {
                None::<u64>
            }
        }),
{
    let n = t.len();
    if start == n {
        return None;
    }
    let mut acc: u64 = 0;
    let mut exceeded = false;
    let mut i: usize = start;
    while i < n
        invariant
            start <= i <= n,
            n == t@.len(),
            limit <= u32::MAX,
            all_digits(t@.subrange(start as int, i as int)),
            !exceeded ==> acc as nat == decimal(t@.subrange(start as int, i as int)) && acc
                <= limit,
            exceeded ==> decimal(t@.subrange(start as int, i as int)) > limit,
        decreases n - i,
    {
        let c = t[i];
        if !('0' <= c && c <= '9') {
            assert(t@.subrange(start as int, n as int)[i - start] == c);
            return None;
        }
        proof {
            assert(t@.subrange(start as int, i + 1) =~= t@.subrange(start as int, i as int).push(
                c,
            ));
            lemma_decimal_grows(t@.subrange(start as int, i as int), c);
        }
        let digit = (c as u32 - '0' as u32) as u64;
        if !exceeded {
            if acc * 10 + digit > limit {
                exceeded = true;
            } else {
                acc = acc * 10 + digit;
            }
        }
        i = i + 1;
    }
    if exceeded {
        None
    } else {
        Some(acc)
    }
}

/// `str::parse::<u32>` on a piece, stated by `parse_u32`.
fn parse_piece_u32(t: &Vec<char>) -> (r: Option<u32>)
    ensures
        r == parse_u32(t@),
{
    let start: usize = if t.len() > 0 && t[0] == '+' {
        1
    } else {
        0
    };
    assert(t@.subrange(start as int, t@.len() as int) =~= if t@.len() > 0 && t@[0] == '+' {
        t@.drop_first()
    } else {
        t@
    });
    match parse_magnitude(t, start, 0xffff_ffff) {
        Some(v) => Some(v as u32),
        None => None,
    }
}

/// `str::parse::<i32>` on a piece, stated by `parse_i32`.
fn parse_piece_i32(t: &Vec<char>) -> (r: Option<i32>)
    ensures
        r == parse_i32(t@),
{
    if t.len() > 0 && t[0] == '-' {
        assert(t@.subrange(1, t@.len() as int) =~= t@.drop_first());
        match parse_magnitude(t, 1, 0x8000_0000) {
            Some(v) => Some((0 - (v as i64)) as i32),
            None => None,
        }
    } else {
        let start: usize = if t.len() > 0 && t[0] == '+' {
            1
        } else {
            0
        };
        assert(t@.subrange(start as int, t@.len() as int) =~= if t@.len() > 0 && t@[0] == '+' {
            t@.drop_first()
        } else {
            t@
        });
        match parse_magnitude(t, start, 0x7fff_ffff) {
            Some(v) => Some(v as i32),
            None => None,
        }
    }
}

/// Whether a piece holds `pre`.
fn piece_has_pre(t: &Vec<char>) -> (r: bool)
    ensures
        r == has_pre(t@),
{
    let n = t.len();
    if n < 3 {
        return false;
    }
    let mut k: usize = 0;
    while k < n - 2
        invariant
            n == t@.len(),
            n >= 3,
            k <= n - 2,
            forall|j: int|
                0 <= j < k ==> !(#[trigger] t@[j] == 'p' && t@[j + 1] == 'r' && t@[j + 2] == 'e'),
        decreases n - k,
    {
        if t[k] == 'p' && t[k + 1] == 'r' && t[k + 2] == 'e' {
            return true;
        }
        k = k + 1;
    }
    false
}

/// Splits `s` at each `'.'`, as `split_dots` states.
fn split_version(s: &str) -> (r: Vec<Vec<char>>)
    ensures
        r@.len() == split_dots(s@).len(),
        forall|j: int| 0 <= j < r@.len() ==> (#[trigger] r@[j])@ == split_dots(s@)[j],
{
    let n = s.unicode_len();
    let mut parts: Vec<Vec<char>> = Vec::new();
    parts.push(Vec::new());
    assert(s@.subrange(0, 0) =~= Seq::<char>::empty());
    let mut i: usize = 0;
    while i < n
        invariant
            i <= n,
            n == s@.len(),
            parts@.len() == split_dots(s@.subrange(0, i as int)).len(),
            parts@.len() >= 1,
            forall|j: int|
                0 <= j < parts@.len() ==> (#[trigger] parts@[j])@ == split_dots(
                    s@.subrange(0, i as int),
                )[j],
        decreases n - i,
    {
        let c = s.get_char(i);
        let ghost before = s@.subrange(0, i as int);
        assert(s@.subrange(0, i + 1).drop_last() =~= before);
        assert(s@.subrange(0, i + 1).last() == c);
        if c == '.' {
            parts.push(Vec::new());
        } else {
            let mut last = parts.pop().unwrap();
            last.push(c);
            parts.push(last);
        }
        i = i + 1;
        assert forall|j: int| 0 <= j < parts@.len() implies (#[trigger] parts@[j])@ == split_dots(
            s@.subrange(0, i as int),
        )[j] by {}
    }
    assert(s@.subrange(0, n as int) =~= s@);
    parts
}

/// Parses a Nix version string into a comparable triple `(major, minor, patch)`.
///
/// A third piece that contains `pre` gives patch `-1`, so a pre-release sorts
/// before the release; a third piece that is no `i32`, or none at all, gives
/// patch `0`. Pieces after the third are ignored.
pub fn parse_version(version_str: &str) -> (r: (u32, u32, i32))
    requires
        version_well_formed(version_str@),
    ensures
        r == version_of(version_str@),
{
    let parts = split_version(version_str);
    let major = parse_piece_u32(&parts[0]).unwrap();
    let minor = parse_piece_u32(&parts[1]).unwrap();
    let patch: i32 = if parts.len() > 2 {
        if piece_has_pre(&parts[2]) {
            -1
        } else {
            match parse_piece_i32(&parts[2]) {
                Some(v) => v,
                None => 0,
            }
        }
    } else {
        0
    };
    (major, minor, patch)
}

/// Whether version `a` is at least version `b`, comparing the triples
/// lexicographically.
pub fn version_at_least(a: (u32, u32, i32), b: (u32, u32, i32)) -> (r: bool)
    ensures
        r == version_ge(a, b),
{
    if a.0 != b.0 {
        a.0 > b.0
    } else if a.1 != b.1 {
        a.1 > b.1
    } else {
        a.2 >= b.2
    }
}

/// For each of `relevant_versions`, whether `nix_version` is at least that
/// version: the gates a build script turns on for this library version.
pub fn enabled_versions(nix_version: &str, relevant_versions: &[&str]) -> (r: Vec<bool>)
    requires
        version_well_formed(nix_version@),
        forall|i: int|
            0 <= i < relevant_versions@.len() ==> version_well_formed(
                #[trigger] relevant_versions@[i]@,
            ),
    ensures
        r@.len() == relevant_versions@.len(),
        forall|i: int|
            0 <= i < r@.len() ==> #[trigger] r@[i] == version_ge(
                version_of(nix_version@),
                version_of(relevant_versions@[i]@),
            ),
{
    let current = parse_version(nix_version);
    let mut r: Vec<bool> = Vec::new();
    let mut i: usize = 0;
    while i < relevant_versions.len()
        invariant
            i <= relevant_versions@.len(),
            current == version_of(nix_version@),
            r@.len() == i,
            forall|j: int|
                0 <= j < relevant_versions@.len() ==> version_well_formed(
                    #[trigger] relevant_versions@[j]@,
                ),
            forall|j: int|
                0 <= j < i ==> #[trigger] r@[j] == version_ge(
                    version_of(nix_version@),
                    version_of(relevant_versions@[j]@),
                ),
        decreases relevant_versions@.len() - i,
    {
        let v = parse_version(relevant_versions[i]);
        r.push(version_at_least(current, v));
        i = i + 1;
    }
    r
}

} // verus!
