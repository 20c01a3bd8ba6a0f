//! The kernel's list of online CPUs, as found in
//! `/sys/devices/system/cpu/online`: comma-separated groups, each a CPU
//! number or an inclusive range `first-last` (`0-2,5-6`).
use vstd::prelude::*;

verus! {

pub type CpuId = i32;

pub open spec fn is_digit(c: char) -> bool {
    '0' <= c && c <= '9'
}

pub open spec fn digit_value(c: char) -> nat {
    if is_digit(c) {
        (c as nat - '0' as nat) as nat
    } else {
        0
    }
}

/// The value of a string of decimal digits.
pub open spec fn decimal_value(s: Seq<char>) -> nat
    decreases s.len(),
{
    if s.len() == 0 {
        0
    } else {
        decimal_value(s.drop_last()) * 10 + digit_value(s.last())
    }
}

/// A CPU number: one or more decimal digits whose value fits in a `CpuId`.
pub open spec fn is_cpu_number(s: Seq<char>) -> bool {
    &&& s.len() > 0
    &&& forall|i: int| 0 <= i < s.len() ==> is_digit(#[trigger] s[i])
    &&& decimal_value(s) <= i32::MAX
}

/// The pieces of `s` between occurrences of `sep`, as `str::split` gives them.
pub open spec fn split_on(s: Seq<char>, sep: char) -> Seq<Seq<char>>
    decreases s.len(),
{
    if s.len() == 0 {
        seq![Seq::empty()]
    } else {
        let p = split_on(s.drop_last(), sep);
        if s.last() == sep {
            p.push(Seq::empty())
        } else {
            p.update(p.len() - 1, p.last().push(s.last()))
        }
    }
}

/// The CPUs from `first` to `last`, both included; none where `last < first`.
pub open spec fn cpu_range(first: int, last: int) -> Seq<CpuId> {
    Seq::new(
        if last >= first {
            (last - first + 1) as nat
        } else {
            0
        },
        |i: int| (first + i) as CpuId,
    )
}

/// A group `first-last` split at the dash at `k`.
pub open spec fn is_range_at(g: Seq<char>, k: int) -> bool {
    &&& 0 <= k < g.len()
    &&& g[k] == '-'
    &&& is_cpu_number(g.take(k))
    &&& is_cpu_number(g.skip(k + 1))
}

/// The CPUs that one group names, or `None` where it is neither a CPU number
/// nor a range of two.
pub open spec fn group_cpus(g: Seq<char>) -> Option<Seq<CpuId>> {
    if is_cpu_number(g) {
        Some(seq![decimal_value(g) as CpuId])
    } else if exists|k: int| is_range_at(g, k) {
        let k = choose|k: int| is_range_at(g, k);
        Some(cpu_range(decimal_value(g.take(k)) as int, decimal_value(g.skip(k + 1)) as int))
    } else {
        None
    }
}

/// The CPUs that a sequence of groups names, in order; `None` where a group
/// is invalid.
pub open spec fn groups_cpus(gs: Seq<Seq<char>>) -> Option<Seq<CpuId>>
    decreases gs.len(),
{
    if gs.len() == 0 {
        Some(Seq::empty())
    } else {
        match (groups_cpus(gs.drop_last()), group_cpus(gs.last())) {
            (Some(a), Some(b)) => Some(a + b),
            _ => None,
        }
    }
}

/// The CPUs that a list names.
pub open spec fn cpu_list(s: Seq<char>) -> Option<Seq<CpuId>> {
    groups_cpus(split_on(s, ','))
}

proof fn lemma_value_monotone(s: Seq<char>, i: int)
    requires
        0 <= i <= s.len(),
    ensures
        decimal_value(s) >= decimal_value(s.take(i)),
    decreases s.len(),
{
    if i == s.len() {
        assert(s.take(i) =~= s);
    } else {
        lemma_value_monotone(s.drop_last(), i);
        assert(s.drop_last().take(i) =~= s.take(i));
    }
}

/// Reads the CPU number that `g[lo..hi]` holds.
fn parse_number(g: &Vec<char>, lo: usize, hi: usize) -> (r: Option<CpuId>)
    requires
        lo <= hi <= g@.len(),
    ensures
        is_cpu_number(g@.subrange(lo as int, hi as int)) ==> r == Some(
            decimal_value(g@.subrange(lo as int, hi as int)) as CpuId,
        ),
        !is_cpu_number(g@.subrange(lo as int, hi as int)) ==> r is None,
{
    if lo == hi {
        return None;
    }
    let mut v: u32 = 0;
    let mut i: usize = lo;
    while i < hi
        invariant
            lo <= i <= hi <= g@.len(),
            v as nat == decimal_value(g@.subrange(lo as int, i as int)),
            v <= i32::MAX,
            forall|j: int| lo <= j < i ==> is_digit(#[trigger] g@[j]),
        decreases hi - i,
    {
        let c = g[i];
        if !('0' <= c && c <= '9') {
            assert(g@.subrange(lo as int, hi as int)[i - lo] == c);
            return None;
        }
        let d = (c as u32) - ('0' as u32);
        assert(g@.subrange(lo as int, i + 1).drop_last() =~= g@.subrange(lo as int, i as int));
        if v > (i32::MAX as u32 - d) / 10 {
            proof {
                lemma_value_monotone(g@.subrange(lo as int, hi as int), i + 1 - lo);
                assert(g@.subrange(lo as int, hi as int).take(i + 1 - lo) =~= g@.subrange(
                    lo as int,
                    i + 1,
                ));
            }
            return None;
        }
        v = v * 10 + d;
        i = i + 1;
    }
    assert(forall|j: int|
        0 <= j < hi - lo ==> #[trigger] g@.subrange(lo as int, hi as int)[j] == g@[lo + j]);
    Some(v as CpuId)
}

/// The CPUs that one group names.
fn parse_group(g: &Vec<char>) -> (r: Option<Vec<CpuId>>)
    ensures
        group_cpus(g@) is None ==> r is None,
        group_cpus(g@) matches Some(v) ==> (r matches Some(w) && w@ == v),
{
    let n = g.len();
    let mut k: usize = 0;
    while k < n && g[k] != '-'
        invariant
            k <= n == g@.len(),
            forall|j: int| 0 <= j < k ==> g@[j] != '-',
        decreases n - k,
    {
        k = k + 1;
    }
    assert(g@.subrange(0, n as int) =~= g@);
    if k == n {
        let r = parse_number(g, 0, n);
        proof {
            if !is_cpu_number(g@) {
                assert forall|k2: int| !is_range_at(g@, k2) by {
                    if 0 <= k2 < g@.len() {
                        assert(g@[k2] != '-');
                    }
                }
            }
        }
        return match r {
            Some(c) => Some(vec![c]),
            None => None,
        };
    }
    assert(!is_digit(g@[k as int]));
    assert(!is_cpu_number(g@));
    let a = parse_number(g, 0, k);
    let b = parse_number(g, k + 1, n);
    assert(g@.subrange(0, k as int) =~= g@.take(k as int));
    assert(g@.subrange(k + 1, n as int) =~= g@.skip(k + 1));
    proof {
        assert forall|k2: int| #[trigger] is_range_at(g@, k2) implies k2 == k by {
            if k2 > k {
                assert(g@.take(k2)[k as int] == '-');
                assert(!is_digit(g@.take(k2)[k as int]));
            }
        }
    }
    match (a, b) {
        (Some(first), Some(last)) => {
            assert(is_range_at(g@, k as int));
            let mut out: Vec<CpuId> = Vec::new();
            let mut x: i64 = first as i64;
            while x <= last as i64
                invariant
                    first <= x,
                    last >= first ==> x <= last + 1,
                    last < first ==> x == first,
                    out@ =~= Seq::new((x - first) as nat, |i: int| (first + i) as CpuId),
                decreases last as i64 + 1 - x,
            {
                out.push(x as CpuId);
                x = x + 1;
            }
            assert(out@ =~= cpu_range(first as int, last as int));
            Some(out)
        },
        _ => None,
    }
}

/// The CPUs that a list such as `0-2,5-6` names, in the order written.
/// `None` where the text is not such a list: an empty group, a number that
/// does not fit, or any other character than digits, one dash per group and
/// the commas.
pub fn list_from_string(cpus: &str) -> (r: Option<Vec<CpuId>>)
    ensures
        cpu_list(cpus@) is None ==> r is None,
        cpu_list(cpus@) matches Some(v) ==> (r matches Some(w) && w@ == v),
{
    let n = cpus.unicode_len();
    let ghost mut done: Seq<Seq<char>> = Seq::empty();
    let mut cur: Vec<char> = Vec::new();
    let mut acc: Vec<CpuId> = Vec::new();
    let mut ok = true;
    let mut i: usize = 0;
    assert(cpus@.take(0) =~= Seq::<char>::empty());
    assert(split_on(Seq::<char>::empty(), ',') =~= done.push(cur@));
    while i < n
        invariant
            i <= n == cpus@.len(),
            split_on(cpus@.take(i as int), ',') == done.push(cur@),
            ok ==> groups_cpus(done) == Some(acc@),
            !ok ==> groups_cpus(done) is None,
        decreases n - i,
    {
        let c = cpus.get_char(i);
        assert(cpus@.take(i + 1).drop_last() =~= cpus@.take(i as int));
        assert(cpus@.take(i + 1).last() == c);
        if c == ',' {
            let g = parse_group(&cur);
            proof {
                assert(done.push(cur@).drop_last() =~= done);
            }
            match g {
                Some(v) => {
                    if ok {
                        acc.append(&mut v.clone());
                    }
                },
                None => {
                    ok = false;
                },
            }
            proof {
                done = done.push(cur@);
            }
            cur = Vec::new();
            assert(split_on(cpus@.take(i + 1), ',') =~= done.push(cur@));
        } else {
            let ghost p = done.push(cur@);
            cur.push(c);
            assert(p.update(p.len() - 1, p.last().push(c)) =~= done.push(cur@));
        }
        i = i + 1;
    }
    assert(cpus@.take(n as int) =~= cpus@);
    let g = parse_group(&cur);
    assert(done.push(cur@).drop_last() =~= done);
    match g {
        Some(v) => {
            if ok {
                let mut v = v;
                acc.append(&mut v);
                Some(acc)
            } else {
                None
            }
        },
        None => None,
    }
}

} // verus!
