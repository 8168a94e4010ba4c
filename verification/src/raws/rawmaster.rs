use vstd::prelude::*;

use crate::random_tables::{total_of, EntityType, RandomTable};
use vstd::string::StrSliceExecFns;

verus! {

/// `c` is an ASCII decimal digit.
pub open spec fn is_digit(c: char) -> bool {
    48 <= (c as u32) <= 57
}

/// Where the run of digits starting at `i` ends.
pub open spec fn digits_end(s: Seq<char>, i: int) -> int
    decreases s.len() - i,
{
    if i < 0 || i >= s.len() || !is_digit(s[i]) {
        i
    } else {
        digits_end(s, i + 1)
    }
}

/// The decimal value of the digits from `i` up to `j`.
pub open spec fn digits_value(s: Seq<char>, i: int, j: int) -> int
    decreases j - i,
{
    if j <= i {
        0
    } else {
        digits_value(s, i, j - 1) * 10 + ((s[j - 1] as u32) - 48)
    }
}

/// A dice expression (`(\d+)d(\d+)([+-]\d+)?`) starts at `p`: digits, a `d`, digits.
pub open spec fn dice_at(s: Seq<char>, p: int) -> bool {
    &&& 0 <= p < s.len()
    &&& is_digit(s[p])
    &&& digits_end(s, p) + 1 < s.len()
    &&& s[digits_end(s, p)] == 'd'
    &&& is_digit(s[digits_end(s, p) + 1])
}

/// A signed bonus (a `+` or `-` and digits) starts at `r`.
pub open spec fn bonus_at(s: Seq<char>, r: int) -> bool {
    &&& 0 <= r
    &&& r + 1 < s.len()
    &&& (s[r] == '+' || s[r] == '-')
    &&& is_digit(s[r + 1])
}

/// The runs of digits end after where they start and hold only digits.
pub proof fn lemma_digits_end(s: Seq<char>, i: int)
    requires
        0 <= i <= s.len(),
    ensures
        i <= digits_end(s, i) <= s.len(),
        forall|k: int| i <= k < digits_end(s, i) ==> is_digit(#[trigger] s[k]),
        digits_end(s, i) == s.len() || !is_digit(s[digits_end(s, i)]),
        i < s.len() && is_digit(s[i]) ==> digits_end(s, i) > i,
    decreases s.len() - i,
{
    if i < s.len() && is_digit(s[i]) {
        lemma_digits_end(s, i + 1);
    }
}

/// Reading further digits never lowers the value.
pub proof fn lemma_value_grows(s: Seq<char>, i: int, j: int, k: int)
    requires
        0 <= i <= j <= k <= s.len(),
        forall|m: int| i <= m < k ==> is_digit(#[trigger] s[m]),
    ensures
        0 <= digits_value(s, i, j) <= digits_value(s, i, k),
    decreases k - j,
{
    if j < k {
        lemma_value_grows(s, i, j, k - 1);
        assert(is_digit(s[k - 1]));
    } else {
        lemma_value_nonneg(s, i, j);
    }
}

/// The value of a run of digits is not negative.
proof fn lemma_value_nonneg(s: Seq<char>, i: int, j: int)
    requires
        0 <= i <= j <= s.len(),
        forall|m: int| i <= m < j ==> is_digit(#[trigger] s[m]),
    ensures
        0 <= digits_value(s, i, j),
    decreases j - i,
{
    if j > i {
        lemma_value_nonneg(s, i, j - 1);
        assert(is_digit(s[j - 1]));
    }
}

/// What reading a dice string from `i` on leaves of the numbers `acc` (dice, sides,
/// bonus): each dice expression found, leftmost first and not overlapping, sets the dice
/// and the sides, and the bonus when it has one.
pub open spec fn dice_scan(s: Seq<char>, i: int, acc: (int, int, int)) -> (int, int, int)
    decreases s.len() - i,
{
    if i < 0 || i >= s.len() {
        acc
    } else if dice_at(s, i) {
        proof {
            lemma_digits_end(s, i);
            lemma_digits_end(s, digits_end(s, i) + 1);
        }
        let q = digits_end(s, i);
        let r = digits_end(s, q + 1);
        let n = digits_value(s, i, q);
        let d = digits_value(s, q + 1, r);
        if bonus_at(s, r) {
            proof {
                lemma_digits_end(s, r + 1);
            }
            let t = digits_end(s, r + 1);
            let v = digits_value(s, r + 1, t);
            dice_scan(s, t, (n, d, if s[r] == '-' { -v } else { v }))
        } else {
            dice_scan(s, r, (n, d, acc.2))
        }
    } else {
        dice_scan(s, i + 1, acc)
    }
}

/// Every number the scan from `i` reads fits in an `i32` (as the game's parsing needs).
pub open spec fn dice_fit(s: Seq<char>, i: int) -> bool
    decreases s.len() - i,
{
    if i < 0 || i >= s.len() {
        true
    } else if dice_at(s, i) {
        proof {
            lemma_digits_end(s, i);
            lemma_digits_end(s, digits_end(s, i) + 1);
        }
        let q = digits_end(s, i);
        let r = digits_end(s, q + 1);
        &&& digits_value(s, i, q) <= i32::MAX
        &&& digits_value(s, q + 1, r) <= i32::MAX
        &&& if bonus_at(s, r) {
            proof {
                lemma_digits_end(s, r + 1);
            }
            let t = digits_end(s, r + 1);
            &&& digits_value(s, r + 1, t) <= if s[r] == '-' { 2147483648int } else { i32::MAX as int }
            &&& dice_fit(s, t)
        } else {
            dice_fit(s, r)
        }
    } else {
        dice_fit(s, i + 1)
    }
}

/// Every character of `e` is a decimal digit.
pub open spec fn all_digits(e: Seq<char>) -> bool {
    forall|k: int| 0 <= k < e.len() ==> is_digit(#[trigger] e[k])
}

/// The number a string of decimal digits writes, most significant digit first.
pub open spec fn decimal(e: Seq<char>) -> int
    decreases e.len(),
{
    if e.len() == 0 {
        0
    } else {
        decimal(e.drop_last()) * 10 + ((e.last() as u32) - 48)
    }
}

/// A run of digits from `i` that stops at `j` (at the end or before a non-digit) ends at `j`.
proof fn lemma_run_ends_at(s: Seq<char>, i: int, j: int)
    requires
        0 <= i <= j <= s.len(),
        forall|k: int| i <= k < j ==> is_digit(#[trigger] s[k]),
        j == s.len() || !is_digit(s[j]),
    ensures
        digits_end(s, i) == j,
    decreases j - i,
{
    if i < j {
        assert(is_digit(s[i]));
        lemma_run_ends_at(s, i + 1, j);
    }
}

/// The value read from `i` up to `j` is the number those characters write.
proof fn lemma_value_is_decimal(s: Seq<char>, i: int, j: int)
    requires
        0 <= i <= j <= s.len(),
    ensures
        digits_value(s, i, j) == decimal(s.subrange(i, j)),
    decreases j - i,
{
    if i < j {
        lemma_value_is_decimal(s, i, j - 1);
        assert(s.subrange(i, j).drop_last() =~= s.subrange(i, j - 1));
        assert(s.subrange(i, j).last() == s[j - 1]);
    }
}

/// A dice string `<a>d<c>` followed by a sign and `<e>`, with `a`, `c` and `e` whole runs of
/// digits, reads as `a` dice of `c` sides with the bonus `e`, negated after a `-`: each
/// number is the whole run of digits, whatever its length. Without the sign and `e`, the
/// bonus read so far is kept.
pub proof fn lemma_dice_reads_whole_numbers(a: Seq<char>, c: Seq<char>, sign: char, e: Seq<char>, acc: (int, int, int))
    requires
        a.len() > 0,
        c.len() > 0,
        e.len() > 0,
        all_digits(a),
        all_digits(c),
        all_digits(e),
        sign == '+' || sign == '-',
    ensures
        dice_scan(a + seq!['d'] + c + seq![sign] + e, 0, acc)
            == (decimal(a), decimal(c), if sign == '-' { -decimal(e) } else { decimal(e) }),
        dice_scan(a + seq!['d'] + c, 0, acc) == (decimal(a), decimal(c), acc.2),
{
    let q = a.len() as int;
    let r = q + 1 + c.len();
    let s = a + seq!['d'] + c + seq![sign] + e;
    let s2 = a + seq!['d'] + c;
    assert(!is_digit('d'));
    assert(!is_digit('+'));
    assert(!is_digit('-'));
    assert forall|k: int| 0 <= k < q implies is_digit(#[trigger] s[k]) && s2[k] == s[k] by {
        assert(s[k] == a[k]);
        assert(s2[k] == a[k]);
    }
    assert forall|k: int| q + 1 <= k < r implies is_digit(#[trigger] s[k]) && s2[k] == s[k] by {
        assert(s[k] == c[k - q - 1]);
        assert(s2[k] == c[k - q - 1]);
    }
    assert forall|k: int| r + 1 <= k < s.len() implies is_digit(#[trigger] s[k]) by {
        assert(s[k] == e[k - r - 1]);
    }
    assert(s[q] == 'd' && s2[q] == 'd');
    assert(s[r] == sign);
    assert(s[0] == a[0]);
    assert(s[q + 1] == c[0]);
    assert(s[r + 1] == e[0]);
    lemma_run_ends_at(s, 0, q);
    lemma_run_ends_at(s, q + 1, r);
    lemma_run_ends_at(s, r + 1, s.len() as int);
    lemma_run_ends_at(s2, 0, q);
    lemma_run_ends_at(s2, q + 1, r);
    lemma_value_is_decimal(s, 0, q);
    lemma_value_is_decimal(s, q + 1, r);
    lemma_value_is_decimal(s, r + 1, s.len() as int);
    lemma_value_is_decimal(s2, 0, q);
    lemma_value_is_decimal(s2, q + 1, r);
    assert(s.subrange(0, q) =~= a);
    assert(s.subrange(q + 1, r) =~= c);
    assert(s.subrange(r + 1, s.len() as int) =~= e);
    assert(s2.subrange(0, q) =~= a);
    assert(s2.subrange(q + 1, r) =~= c);
    assert(dice_at(s, 0));
    assert(bonus_at(s, r));
    assert(dice_at(s2, 0));
    assert(!bonus_at(s2, r));
    let v = if sign == '-' { -decimal(e) } else { decimal(e) };
    assert(dice_scan(s, s.len() as int, (decimal(a), decimal(c), v)) == (decimal(a), decimal(c), v));
    assert(dice_scan(s2, r, (decimal(a), decimal(c), acc.2)) == (decimal(a), decimal(c), acc.2));
}

/// Whether the character at `i` is a digit.
fn digit_at(s: &str, i: usize) -> (r: bool)
    requires
        i < s@.len(),
    ensures
        r == is_digit(s@[i as int]),
{
    let c = s.get_char(i);
    (c as u32) >= 48 && (c as u32) <= 57
}

/// Where the run of digits from `i` ends.
fn scan_digits(s: &str, i: usize) -> (e: usize)
    requires
        i <= s@.len(),
    ensures
        e == digits_end(s@, i as int),
{
    let n = s.unicode_len();
    let mut j = i;
    proof {
        lemma_digits_end(s@, i as int);
    }
    while j < n && digit_at(s, j)
        invariant
            n == s@.len(),
            i <= j <= n,
            digits_end(s@, j as int) == digits_end(s@, i as int),
        decreases n - j,
    {
        j = j + 1;
    }
    j
}

/// The value of the digits from `i` up to `j`, which fits in 32 bits.
fn digits_number(s: &str, i: usize, j: usize) -> (v: i64)
    requires
        i <= j <= s@.len(),
        forall|m: int| i <= m < j ==> is_digit(#[trigger] s@[m]),
        digits_value(s@, i as int, j as int) <= 2147483648,
    ensures
        v == digits_value(s@, i as int, j as int),
        0 <= v <= 2147483648,
{
    proof {
        lemma_value_nonneg(s@, i as int, j as int);
    }
    let mut v: i64 = 0;
    let mut k = i;
    while k < j
        invariant
            i <= k <= j <= s@.len(),
            forall|m: int| i <= m < j ==> is_digit(#[trigger] s@[m]),
            digits_value(s@, i as int, j as int) <= 2147483648,
            v == digits_value(s@, i as int, k as int),
        decreases j - k,
    {
        proof {
            lemma_value_grows(s@, i as int, k + 1, j as int);
            assert(is_digit(s@[k as int]));
        }
        let c = s.get_char(k);
        v = v * 10 + (c as u32 - 48) as i64;
        k = k + 1;
    }
    v
}

/// Reads a dice string such as `2d6+1`: the number of dice, their sides, and the bonus.
/// Every dice expression in it (leftmost first) sets the first two, and the bonus when it
/// has one; without any, the answer is one four-sided die with no bonus.
pub fn parse_dice_string(dice: &str) -> (r: (i32, i32, i32))
    requires
        dice_fit(dice@, 0),
    ensures
        (r.0 as int, r.1 as int, r.2 as int) == dice_scan(dice@, 0, (1, 4, 0)),
{
    let n = dice.unicode_len();
    let mut n_dice: i32 = 1;
    let mut die_type: i32 = 4;
    let mut die_bonus: i32 = 0;
    let mut i: usize = 0;
    while i < n
        invariant
            n == dice@.len(),
            i <= n,
            dice_fit(dice@, i as int),
            dice_scan(dice@, i as int, (n_dice as int, die_type as int, die_bonus as int)) == dice_scan(dice@, 0, (1, 4, 0)),
        decreases n - i,
    {
        let ghost acc = (n_dice as int, die_type as int, die_bonus as int);
        let mut matched = false;
        if digit_at(dice, i) {
            let q = scan_digits(dice, i);
            proof {
                lemma_digits_end(dice@, i as int);
            }
            if q < n && n - q > 1 && dice.get_char(q) == 'd' && digit_at(dice, q + 1) {
                matched = true;
                assert(dice_at(dice@, i as int));
                let r = scan_digits(dice, q + 1);
                proof {
                    lemma_digits_end(dice@, q + 1);
                }
                assert(digits_value(dice@, i as int, q as int) <= i32::MAX);
                assert(digits_value(dice@, q + 1, r as int) <= i32::MAX);
                let nv = digits_number(dice, i, q);
                let dv = digits_number(dice, q + 1, r);
                n_dice = nv as i32;
                die_type = dv as i32;
                if r < n && n - r > 1 && (dice.get_char(r) == '+' || dice.get_char(r) == '-') && digit_at(dice, r + 1) {
                    assert(bonus_at(dice@, r as int));
                    let t = scan_digits(dice, r + 1);
                    proof {
                        lemma_digits_end(dice@, r + 1);
                    }
                    let bv = digits_number(dice, r + 1, t);
                    assert(bv <= if dice@[r as int] == '-' { 2147483648int } else { i32::MAX as int });
                    if dice.get_char(r) == '-' {
                        die_bonus = (0 - bv) as i32;
                    } else {
                        die_bonus = bv as i32;
                    }
                    assert(dice_scan(dice@, i as int, acc) == dice_scan(dice@, t as int, (nv as int, dv as int, die_bonus as int)));
                    assert(dice_fit(dice@, t as int));
                    i = t;
                } else {
                    assert(!bonus_at(dice@, r as int));
                    assert(dice_scan(dice@, i as int, acc) == dice_scan(dice@, r as int, (nv as int, dv as int, acc.2)));
                    assert(dice_fit(dice@, r as int));
                    i = r;
                }
            }
        }
        if !matched {
            assert(!dice_at(dice@, i as int));
            assert(dice_scan(dice@, i as int, acc) == dice_scan(dice@, i + 1, acc));
            assert(dice_fit(dice@, i + 1));
            i = i + 1;
        }
    }
    (n_dice, die_type, die_bonus)
}

/// A line of the spawn table in the raw files: what spawns, how often, at which depths,
/// and whether deeper levels weigh it more.
#[derive(Clone, Copy, Debug, PartialEq, Eq, Structural)]
pub struct SpawnTableEntry {
    pub kind: EntityType,
    pub weight: i32,
    pub min_depth: i32,
    pub max_depth: i32,
    pub add_map_depth_to_weight: bool,
}

/// The weighted entries for a level at `depth`, in order: those whose depths include it,
/// each weighing its weight, plus the depth where the entry says so.
pub open spec fn entries_for_depth(es: Seq<SpawnTableEntry>, depth: int) -> Seq<(EntityType, int)>
    decreases es.len(),
{
    if es.len() == 0 {
        Seq::empty()
    } else {
        let e = es.last();
        let prev = entries_for_depth(es.drop_last(), depth);
        let w = if e.add_map_depth_to_weight { e.weight + depth } else { e.weight as int };
        if e.min_depth <= depth <= e.max_depth && w > 0 { prev.push((e.kind, w)) } else { prev }
    }
}

/// The spawn table for a level at `depth` (see `entries_for_depth`; weights of zero or
/// less add nothing, as the table's `add` does).
#[verifier::spinoff_prover]
pub fn get_spawn_table_for_depth(spawn_table: &Vec<SpawnTableEntry>, depth: i32) -> (rt: RandomTable)
    requires
        0 <= depth <= 1_000_000,
        spawn_table@.len() <= 1000,
        forall|i: int| 0 <= i < spawn_table@.len() ==> 0 <= (#[trigger] spawn_table@[i]).weight <= 1_000_000,
    ensures
        rt@ == entries_for_depth(spawn_table@, depth as int),
{
    let mut rt = RandomTable::new();
    let mut i: usize = 0;
    while i < spawn_table.len()
        invariant
            0 <= depth <= 1_000_000,
            spawn_table@.len() <= 1000,
            forall|k: int| 0 <= k < spawn_table@.len() ==> 0 <= (#[trigger] spawn_table@[k]).weight <= 1_000_000,
            i <= spawn_table@.len(),
            rt@ == entries_for_depth(spawn_table@.subrange(0, i as int), depth as int),
            rt.spec_total() <= 2_000_000 * i,
            rt.spec_total() >= 0,
            rt.spec_total() == total_of(rt@),
        decreases spawn_table@.len() - i,
    {
        let e = spawn_table[i];
        proof {
            assert(spawn_table@.subrange(0, i + 1).drop_last() =~= spawn_table@.subrange(0, i as int));
            assert(spawn_table@.subrange(0, i + 1).last() == e);
        }
        if depth >= e.min_depth && depth <= e.max_depth {
            let mut weight = e.weight;
            if e.add_map_depth_to_weight {
                weight = weight + depth;
            }
            let ghost prev = rt@;
            rt = rt.add(e.kind, weight);
            proof {
                if weight > 0 {
                    assert(rt@.drop_last() =~= prev);
                    assert(total_of(rt@) == total_of(prev) + weight);
                }
            }
        }
        i = i + 1;
    }
    assert(spawn_table@.subrange(0, spawn_table@.len() as int) =~= spawn_table@);
    rt
}

} // verus!
