//! Destination naming for uploaded files: the supplied filename is
//! sanitized against path traversal and illegal characters, then a
//! collision-free destination name is resolved against the names already
//! present, by appending `" (n)"` before the extension for the least
//! `n >= 1` that is still free.
//!
//! Names are handled as byte strings; the host converts them to and from
//! its path type at the edge.

use vstd::prelude::*;

use crate::text::bytes_eq;

verus! {

/// The decimal digits of `n`, most significant first.
pub open spec fn spec_decimal(n: nat) -> Seq<u8>
    decreases n,
{
    if n < 10 {
        seq![(48 + n) as u8]
    } else {
        spec_decimal((n / 10) as nat).push((48 + n % 10) as u8)
    }
}

proof fn lemma_decimal_digits(n: nat)
    ensures
        spec_decimal(n).len() >= 1,
        forall|i: int|
            0 <= i < spec_decimal(n).len() ==> 48 <= #[trigger] spec_decimal(n)[i] <= 57,
    decreases n,
{
    if n >= 10 {
        lemma_decimal_digits((n / 10) as nat);
    }
}

proof fn lemma_decimal_injective(a: nat, b: nat)
    requires
        spec_decimal(a) == spec_decimal(b),
    ensures
        a == b,
    decreases a + b,
{
    lemma_decimal_digits(a);
    lemma_decimal_digits(b);
    if a < 10 && b < 10 {
        assert(spec_decimal(a) == seq![(48 + a) as u8]);
        assert(spec_decimal(b) == seq![(48 + b) as u8]);
        assert(seq![(48 + a) as u8][0] == (48 + a) as u8);
        assert(seq![(48 + b) as u8][0] == (48 + b) as u8);
        assert(spec_decimal(a)[0] == spec_decimal(b)[0]);
        assert((48 + a) as u8 == 48 + a);
        assert((48 + b) as u8 == 48 + b);
    } else if a < 10 {
        lemma_decimal_digits((b / 10) as nat);
        assert(spec_decimal(a).len() == 1);
        assert(spec_decimal(b) == spec_decimal((b / 10) as nat).push((48 + b % 10) as u8));
        assert(spec_decimal(b).len() >= 2);
    } else if b < 10 {
        lemma_decimal_digits((a / 10) as nat);
        assert(spec_decimal(b).len() == 1);
        assert(spec_decimal(a) == spec_decimal((a / 10) as nat).push((48 + a % 10) as u8));
        assert(spec_decimal(a).len() >= 2);
    } else {
        assert(spec_decimal(a) == spec_decimal((a / 10) as nat).push((48 + a % 10) as u8));
        assert(spec_decimal(b) == spec_decimal((b / 10) as nat).push((48 + b % 10) as u8));
        assert(spec_decimal(a).last() == (48 + a % 10) as u8);
        assert(spec_decimal(b).last() == (48 + b % 10) as u8);
        assert(0 <= a % 10 < 10);
        assert(0 <= b % 10 < 10);
        assert((48 + a % 10) as u8 == 48 + a % 10);
        assert((48 + b % 10) as u8 == 48 + b % 10);
        assert(a % 10 == b % 10);
        assert(spec_decimal(a).drop_last() =~= spec_decimal((a / 10) as nat));
        assert(spec_decimal(b).drop_last() =~= spec_decimal((b / 10) as nat));
        lemma_decimal_injective((a / 10) as nat, (b / 10) as nat);
        assert(a == 10 * (a as int / 10) + a as int % 10) by {
            vstd::arithmetic::div_mod::lemma_fundamental_div_mod(a as int, 10);
        }
        assert(b == 10 * (b as int / 10) + b as int % 10) by {
            vstd::arithmetic::div_mod::lemma_fundamental_div_mod(b as int, 10);
        }
    }
}

/// The decimal digits of `n`, as bytes.
pub fn decimal_bytes(n: u64) -> (r: Vec<u8>)
    ensures
        r@ == spec_decimal(n as nat),
    decreases n,
{
    if n < 10 {
        let r: Vec<u8> = vec![48 + (n as u8)];
        proof {
            assert(r@ =~= spec_decimal(n as nat));
        }
        r
    } else {
        let mut r = decimal_bytes(n / 10);
        r.push(48 + ((n % 10) as u8));
        proof {
            assert(r@ =~= spec_decimal(n as nat));
        }
        r
    }
}

/// The position of the last `.` of `name` in `1..=k`, or `0` when there is
/// none. A dot at position `0` does not begin an extension.
pub open spec fn last_dot(name: Seq<u8>, k: int) -> int
    decreases k,
{
    if k < 1 {
        0
    } else if name[k] == 46 {
        k
    } else {
        last_dot(name, k - 1)
    }
}

proof fn lemma_last_dot_bounds(name: Seq<u8>, k: int)
    requires
        k < name.len(),
    ensures
        0 <= last_dot(name, k) <= if k < 0 {
            0
        } else {
            k
        },
        last_dot(name, k) >= 1 ==> name[last_dot(name, k)] == 46,
    decreases k,
{
    if k >= 1 && name[k] != 46 {
        lemma_last_dot_bounds(name, k - 1);
    }
}

/// Where `name` splits into stem and extension: the index of the last dot,
/// or `0` when the name has no extension.
pub open spec fn split_dot_index(name: Seq<u8>) -> int {
    if name.len() == 0 {
        0
    } else {
        last_dot(name, name.len() - 1)
    }
}

/// The fallback stem used for a name that sanitization left empty.
pub open spec fn fallback_stem() -> Seq<u8> {
    seq![102u8, 105u8, 108u8, 101u8]
}

/// The stem of `name`: the part before the last dot, the whole name when
/// no dot begins an extension, or a fixed fallback for an empty name.
pub open spec fn stem_of(name: Seq<u8>) -> Seq<u8> {
    if name.len() == 0 {
        fallback_stem()
    } else {
        let i = split_dot_index(name);
        if i == 0 {
            name
        } else {
            name.subrange(0, i)
        }
    }
}

/// The extension of `name`: the part after the last dot, possibly empty.
pub open spec fn ext_of(name: Seq<u8>) -> Seq<u8> {
    if name.len() == 0 {
        Seq::empty()
    } else {
        let i = split_dot_index(name);
        if i == 0 {
            Seq::empty()
        } else {
            name.subrange(i + 1, name.len() as int)
        }
    }
}

/// The bytes of `s` in `a..b`.
fn bytes_range(s: &[u8], a: usize, b: usize) -> (r: Vec<u8>)
    requires
        a <= b <= s@.len(),
    ensures
        r@ == s@.subrange(a as int, b as int),
{
    let mut r: Vec<u8> = Vec::new();
    let mut i: usize = a;
    while i < b
        invariant
            a <= i <= b <= s@.len(),
            r@ == s@.subrange(a as int, i as int),
        decreases b - i,
    {
        r.push(s[i]);
        proof {
            assert(r@ =~= s@.subrange(a as int, i + 1 as int));
        }
        i = i + 1;
    }
    r
}

fn split_point(name: &[u8]) -> (r: usize)
    requires
        name@.len() >= 1,
    ensures
        r == split_dot_index(name@),
        r < name@.len(),
{
    let mut k: usize = name.len() - 1;
    while k >= 1
        invariant
            0 <= k < name@.len(),
            last_dot(name@, name@.len() - 1) == last_dot(name@, k as int),
        decreases k,
    {
        if name[k] == 46 {
            return k;
        }
        k = k - 1;
    }
    0
}

/// Split `name` into stem and extension, as the collision scheme inserts
/// its counter between them.
pub fn split_file_name(name: &[u8]) -> (r: (Vec<u8>, Vec<u8>))
    ensures
        r.0@ == stem_of(name@),
        r.1@ == ext_of(name@),
{
    if name.len() == 0 {
        let stem: Vec<u8> = vec![102u8, 105u8, 108u8, 101u8];
        let ext: Vec<u8> = Vec::new();
        proof {
            assert(stem@ =~= fallback_stem());
            assert(ext@ =~= Seq::<u8>::empty());
        }
        (stem, ext)
    } else {
        let i = split_point(name);
        if i == 0 {
            let ext: Vec<u8> = Vec::new();
            proof {
                assert(ext@ =~= Seq::<u8>::empty());
            }
            (bytes_range(name, 0, name.len()), ext)
        } else {
            (bytes_range(name, 0, i), bytes_range(name, i + 1, name.len()))
        }
    }
}

/// The `n`-th alternative for a colliding name: `stem (n)`, with the
/// extension reattached when there is one.
pub open spec fn numbered_name(stem: Seq<u8>, ext: Seq<u8>, n: nat) -> Seq<u8> {
    let base = stem + seq![32u8, 40u8] + spec_decimal(n) + seq![41u8];
    if ext.len() == 0 {
        base
    } else {
        base + seq![46u8] + ext
    }
}

/// Build the `n`-th alternative name.
pub fn build_numbered_name(stem: &Vec<u8>, ext: &Vec<u8>, n: u64) -> (r: Vec<u8>)
    ensures
        r@ == numbered_name(stem@, ext@, n as nat),
{
    let mut r: Vec<u8> = Vec::new();
    r.extend_from_slice(stem.as_slice());
    r.push(32);
    r.push(40);
    let digits = decimal_bytes(n);
    r.extend_from_slice(digits.as_slice());
    r.push(41);
    if ext.len() > 0 {
        r.push(46);
        r.extend_from_slice(ext.as_slice());
    }
    proof {
        assert(r@ =~= numbered_name(stem@, ext@, n as nat));
    }
    r
}

/// Distinct counters give distinct alternative names: the counter's digits
/// sit between fixed delimiters, and no digit is a delimiter.
proof fn lemma_numbered_injective(stem: Seq<u8>, ext: Seq<u8>, a: nat, b: nat)
    requires
        a != b,
    ensures
        numbered_name(stem, ext, a) != numbered_name(stem, ext, b),
{
    lemma_decimal_digits(a);
    lemma_decimal_digits(b);
    let p = stem.len() as int + 2;
    let la = spec_decimal(a).len() as int;
    let lb = spec_decimal(b).len() as int;
    let na = numbered_name(stem, ext, a);
    let nb = numbered_name(stem, ext, b);
    assert(forall|i: int| 0 <= i < la ==> na[p + i] == spec_decimal(a)[i]);
    assert(forall|i: int| 0 <= i < lb ==> nb[p + i] == spec_decimal(b)[i]);
    assert(na[p + la] == 41);
    assert(nb[p + lb] == 41);
    if na == nb {
        if la == lb {
            assert(spec_decimal(a) =~= spec_decimal(b));
            lemma_decimal_injective(a, b);
        } else if la < lb {
            assert(na[p + la] == nb[p + la]);
            assert(48 <= nb[p + la] <= 57);
        } else {
            assert(nb[p + lb] == na[p + lb]);
            assert(48 <= na[p + lb] <= 57);
        }
    }
}

/// Every alternative name is strictly longer than the name it is derived
/// from, so a name never collides with its own alternatives.
proof fn lemma_numbered_longer(base: Seq<u8>, m: nat)
    ensures
        numbered_name(stem_of(base), ext_of(base), m).len() > base.len(),
{
    lemma_decimal_digits(m);
    if base.len() == 0 {
    } else {
        lemma_last_dot_bounds(base, base.len() - 1);
    }
}

/// A name that is taken is in the set of existing names.
proof fn lemma_taken_in_set(existing: Seq<Vec<u8>>, name: Seq<u8>)
    requires
        name_taken(existing, name),
    ensures
        existing.map_values(|v: Vec<u8>| v@).to_set().contains(name),
{
    let i = choose|i: int| 0 <= i < existing.len() && (#[trigger] existing[i]@) == name;
    assert(existing.map_values(|v: Vec<u8>| v@)[i] == name);
    assert(existing.map_values(|v: Vec<u8>| v@).contains(name));
}

/// Whether `name` is already present among the existing names.
pub open spec fn name_taken(existing: Seq<Vec<u8>>, name: Seq<u8>) -> bool {
    exists|i: int| 0 <= i < existing.len() && (#[trigger] existing[i]@) == name
}

/// Check whether `name` is already present.
pub fn name_taken_check(existing: &Vec<Vec<u8>>, name: &[u8]) -> (r: bool)
    ensures
        r == name_taken(existing@, name@),
{
    let n = existing.len();
    let mut i: usize = 0;
    while i < n
        invariant
            0 <= i <= n,
            n == existing@.len(),
            forall|j: int| 0 <= j < i ==> (#[trigger] existing@[j]@) != name@,
        decreases n - i,
    {
        if bytes_eq(existing[i].as_slice(), name) {
            return true;
        }
        i = i + 1;
    }
    false
}

/// Resolve a collision-free destination name: `base` itself when it is
/// free, else the first alternative `stem (n)[.ext]` with `n` counting up
/// from `1` that is not yet present.
pub fn resolve_unique_name(base: Vec<u8>, existing: &Vec<Vec<u8>>) -> (r: Vec<u8>)
    ensures
        !name_taken(existing@, r@),
        !name_taken(existing@, base@) ==> r@ == base@,
        name_taken(existing@, base@) ==> exists|n: nat|
            1 <= n && r@ == numbered_name(stem_of(base@), ext_of(base@), n) && (forall|m: nat|
                1 <= m < n ==> name_taken(
                    existing@,
                    numbered_name(stem_of(base@), ext_of(base@), m),
                )),
{
    if !name_taken_check(existing, base.as_slice()) {
        return base;
    }
    let cap = existing.len();
    let (stem, ext) = split_file_name(base.as_slice());
    let ghost names_set = existing@.map_values(|v: Vec<u8>| v@).to_set();
    let ghost tried = Set::<Seq<u8>>::empty();
    proof {
        broadcast use vstd::seq_lib::seq_to_set_is_finite;

        existing@.map_values(|v: Vec<u8>| v@).lemma_cardinality_of_set();
        assert(names_set.finite());
        assert(tried.len() == 0);
    }
    let mut n: u64 = 1;
    loop
        invariant
            1 <= n,
            stem@ == stem_of(base@),
            ext@ == ext_of(base@),
            cap == existing@.len(),
            name_taken(existing@, base@),
            names_set == existing@.map_values(|v: Vec<u8>| v@).to_set(),
            names_set.finite(),
            names_set.len() <= cap,
            tried.finite(),
            tried.len() == n - 1,
            tried.subset_of(names_set),
            forall|x: Seq<u8>|
                tried.contains(x) <==> exists|m: nat|
                    1 <= m < n && x == numbered_name(stem@, ext@, m),
            forall|m: nat|
                1 <= m < n ==> name_taken(existing@, numbered_name(stem@, ext@, m)),
        decreases names_set.difference(tried).len(),
    {
        let cand = build_numbered_name(&stem, &ext, n);
        if !name_taken_check(existing, cand.as_slice()) {
            return cand;
        }
        proof {
            assert(names_set.contains(cand@)) by {
                lemma_taken_in_set(existing@, cand@);
            }
            assert(!tried.contains(cand@)) by {
                if tried.contains(cand@) {
                    let m = choose|m: nat|
                        1 <= m < n && cand@ == numbered_name(stem@, ext@, m);
                    lemma_numbered_injective(stem@, ext@, m, n as nat);
                }
            }
            names_set.lemma_set_insert_diff_decreases(tried, cand@);
            tried = tried.insert(cand@);
            assert forall|x: Seq<u8>| tried.contains(x) implies exists|m: nat|
                1 <= m < n + 1 && x == numbered_name(stem@, ext@, m) by {
                if x == cand@ {
                    assert(1 <= n as nat && (n as nat) < n + 1 && x == numbered_name(
                        stem@,
                        ext@,
                        n as nat,
                    ));
                }
            }
            // The base name is in the set but is never among the tried
            // alternatives, which bounds the counter away from overflow.
            assert(names_set.contains(base@)) by {
                lemma_taken_in_set(existing@, base@);
            }
            assert(!tried.contains(base@)) by {
                if tried.contains(base@) {
                    let m = choose|m: nat|
                        1 <= m < n + 1 && base@ == numbered_name(stem@, ext@, m);
                    lemma_numbered_longer(base@, m);
                }
            }
            vstd::set_lib::lemma_len_subset(tried.insert(base@), names_set);
            assert(tried.insert(base@).len() == n + 1);
            assert(n + 1 <= names_set.len());
        }
        n = n + 1;
    }
}

/// What the sanitizer leaves of a supplied filename, as bytes.
pub uninterp spec fn sanitized_of(name: Seq<char>) -> Seq<u8>;

/// Relies on `sanitize_filename::sanitize_with_options` with a fixed
/// option set (`windows: true, truncate: true, replacement: ""`): path
/// separators, traversal sequences, control characters, reserved names and
/// trailing dots or spaces are removed, the result is truncated to 255
/// bytes, and the outcome is a function of the name alone.
#[verifier::external_body]
fn sanitize_file_name(name: &str) -> (r: Vec<u8>)
    ensures
        r@ == sanitized_of(name@),
        r@.len() <= 255,
{
    let options = sanitize_filename::Options { windows: true, truncate: true, replacement: "" };
    sanitize_filename::sanitize_with_options(name, options).into_bytes()
}

/// The destination name for an uploaded file: the supplied name is
/// sanitized, then a collision-free variant of the sanitized name is
/// resolved against the names already present in the destination.
pub fn destination_name(filename: &str, existing: &Vec<Vec<u8>>) -> (r: Vec<u8>)
    ensures
        !name_taken(existing@, r@),
        !name_taken(existing@, sanitized_of(filename@)) ==> r@ == sanitized_of(filename@),
        name_taken(existing@, sanitized_of(filename@)) ==> exists|n: nat|
            1 <= n && r@ == numbered_name(
                stem_of(sanitized_of(filename@)),
                ext_of(sanitized_of(filename@)),
                n,
            ) && (forall|m: nat|
                1 <= m < n ==> name_taken(
                    existing@,
                    numbered_name(
                        stem_of(sanitized_of(filename@)),
                        ext_of(sanitized_of(filename@)),
                        m,
                    ),
                )),
{
    let base = sanitize_file_name(filename);
    resolve_unique_name(base, existing)
}

} // verus!
