//! Short identifiers of goals and plans for tracing.
use vstd::prelude::*;
use crate::plan::{Plan, Step};
use crate::text::{joined, owned};
use std::hash::{Hash, Hasher};

verus! {

/// What std's `DefaultHasher` gives for a goal string.
pub uninterp spec fn goal_hash(s: Seq<char>) -> u64;

/// What std's `DefaultHasher` gives for a step count followed by the step ids.
pub uninterp spec fn plan_ids_hash(ids: Seq<Seq<char>>) -> u64;

/// Relies on std's `DefaultHasher::new` (fixed keys) hashing a `str`: the result depends on
/// the characters alone.
#[verifier::external_body]
fn hash_str(s: &str) -> (r: u64)
    ensures
        r == goal_hash(s@),
{
    let mut h = std::collections::hash_map::DefaultHasher::new();
    s.hash(&mut h);
    h.finish()
}

/// Relies on std's `DefaultHasher::new` (fixed keys) hashing a slice of strings, which feeds
/// the count and then each string: the result depends on the ids alone.
#[verifier::external_body]
fn hash_ids(ids: &Vec<String>) -> (r: u64)
    ensures
        r == plan_ids_hash(ids@.map_values(|s: String| s@)),
{
    let mut h = std::collections::hash_map::DefaultHasher::new();
    ids.as_slice().hash(&mut h);
    h.finish()
}

/// Lower-case hexadecimal digit.
pub open spec fn hex_digit(d: nat) -> char {
    if d < 10 {
        (('0' as u8) + d) as char
    } else {
        (('a' as u8) + d - 10) as char
    }
}

/// Lower-case hexadecimal notation of `n`, without leading zeros, as `{:x}` writes it.
pub open spec fn hex_spec(n: nat) -> Seq<char>
    decreases n,
{
    if n < 16 {
        seq![hex_digit(n)]
    } else {
        hex_spec(n / 16).push(hex_digit(n % 16))
    }
}

/// The first eight digits of the hexadecimal notation of `x` (all of them when fewer).
pub open spec fn short_tag(x: u64) -> Seq<char> {
    if hex_spec(x as nat).len() > 8 {
        hex_spec(x as nat).subrange(0, 8)
    } else {
        hex_spec(x as nat)
    }
}

pub open spec fn pow16(k: nat) -> nat
    decreases k,
{
    if k == 0 { 1 } else { 16 * pow16((k - 1) as nat) }
}

proof fn lemma_pow16_pos(k: nat)
    ensures
        pow16(k) >= 1,
    decreases k,
{
    if k > 0 {
        lemma_pow16_pos((k - 1) as nat);
    }
}

proof fn lemma_hex_len(n: nat, k: nat)
    ensures
        n >= pow16(k) ==> hex_spec(n).len() >= k + 1,
        k >= 1 && n < pow16(k) ==> hex_spec(n).len() <= k,
    decreases k,
{
    lemma_pow16_pos(k);
    if k > 0 {
        lemma_hex_len(n / 16, (k - 1) as nat);
        let p = pow16((k - 1) as nat);
        lemma_pow16_pos((k - 1) as nat);
        if n >= pow16(k) {
            assert(n >= 16 && n / 16 >= p) by (nonlinear_arith)
                requires
                    n >= 16 * p,
                    p >= 1,
            {
            }
        }
        if k >= 2 && n < pow16(k) && n >= 16 {
            assert(n / 16 < p) by (nonlinear_arith)
                requires
                    n < 16 * p,
            {
            }
        }
    }
}

fn hex_digit_str(d: u64) -> (r: &'static str)
    requires
        d < 16,
    ensures
        r@ == seq![hex_digit(d as nat)],
{
    proof {
        reveal_strlit("0");
        reveal_strlit("1");
        reveal_strlit("2");
        reveal_strlit("3");
        reveal_strlit("4");
        reveal_strlit("5");
        reveal_strlit("6");
        reveal_strlit("7");
        reveal_strlit("8");
        reveal_strlit("9");
        reveal_strlit("a");
        reveal_strlit("b");
        reveal_strlit("c");
        reveal_strlit("d");
        reveal_strlit("e");
        reveal_strlit("f");
    }
    if d == 0 { "0" } else if d == 1 { "1" } else if d == 2 { "2" } else if d == 3 { "3" } else if d == 4 { "4" } else if d == 5 { "5" } else if d == 6 { "6" } else if d == 7 { "7" } else if d == 8 { "8" } else if d == 9 { "9" } else if d == 10 { "a" } else if d == 11 { "b" } else if d == 12 { "c" } else if d == 13 { "d" } else if d == 14 { "e" } else { "f" }
}

/// Hexadecimal notation of `n`.
fn hex(n: u64) -> (r: String)
    ensures
        r@ == hex_spec(n as nat),
    decreases n,
{
    if n < 16 {
        owned(hex_digit_str(n))
    } else {
        let head = hex(n / 16);
        let r = joined(head.as_str(), hex_digit_str(n % 16));
        proof {
            assert(r@ =~= hex_spec(n as nat));
        }
        r
    }
}

/// The first eight digits of the hexadecimal notation of `x`.
fn short_hex(x: u64) -> (r: String)
    ensures
        r@ == short_tag(x),
{
    let mut m: u64 = x;
    proof {
        assert(hex_spec(x as nat).subrange(0, hex_spec(x as nat).len() as int) =~= hex_spec(x as nat));
    }
    while m >= 0x1_0000_0000
        invariant
            hex_spec(m as nat) == hex_spec(x as nat).subrange(0, hex_spec(m as nat).len() as int),
            hex_spec(m as nat).len() <= hex_spec(x as nat).len(),
            m != x ==> hex_spec(m as nat).len() >= 8,
        decreases m,
    {
        let ghost hm = hex_spec(m as nat);
        proof {
            assert(hex_spec((m / 16) as nat) == hm.drop_last());
            assert(hm.drop_last() =~= hex_spec(x as nat).subrange(0, hm.len() - 1));
            reveal_with_fuel(pow16, 8);
            lemma_hex_len((m / 16) as nat, 7);
        }
        m = m / 16;
    }
    proof {
        reveal_with_fuel(pow16, 9);
        lemma_hex_len(m as nat, 8);
        if m != x {
            assert(hex_spec(m as nat).len() == 8);
        }
    }
    hex(m)
}

/// An 8-digit hexadecimal tag of a goal.
pub fn hash_goal(goal: &str) -> (r: String)
    ensures
        r@ == short_tag(goal_hash(goal@)),
{
    short_hex(hash_str(goal))
}

/// An 8-digit hexadecimal tag of a plan's step ids.
pub fn hash_plan(plan: &Plan) -> (r: String)
    ensures
        r@ == short_tag(plan_ids_hash(plan.steps@.map_values(|s: Step| s.id@))),
{
    let ids = crate::graph::extract_task_ids(plan);
    proof {
        assert(ids@.map_values(|s: String| s@) =~= plan.steps@.map_values(|s: Step| s.id@));
    }
    short_hex(hash_ids(&ids))
}

} // verus!
