use vstd::prelude::*;

verus! {

use crate::model::{Export, ExportV, Session, SessionV, Tab, TabV, Window, WindowV};

// ---------------------------------------------------------------------------
// The order on rendered dates: lexicographic comparison of the character
// sequences, by code point, exactly as Rust's `str` ordering compares them.
// ---------------------------------------------------------------------------

/// `a` is lexicographically at most `b`, comparing from position `i` on.
pub open spec fn lex_leq_from(a: Seq<char>, b: Seq<char>, i: int) -> bool
    decreases a.len() - i,
{
    if i >= a.len() {
        true
    } else if i >= b.len() {
        false
    } else if a[i] == b[i] {
        lex_leq_from(a, b, i + 1)
    } else {
        (a[i] as u32) < (b[i] as u32)
    }
}

/// `a` is lexicographically at most `b`.
pub open spec fn lex_leq(a: Seq<char>, b: Seq<char>) -> bool {
    lex_leq_from(a, b, 0)
}

pub proof fn lemma_lex_refl(a: Seq<char>, i: int)
    ensures
        lex_leq_from(a, a, i),
    decreases a.len() - i,
{
    if i < a.len() {
        lemma_lex_refl(a, i + 1);
    }
}

pub proof fn lemma_lex_total(a: Seq<char>, b: Seq<char>, i: int)
    ensures
        lex_leq_from(a, b, i) || lex_leq_from(b, a, i),
    decreases a.len() - i,
{
    if i < a.len() && i < b.len() {
        if a[i] == b[i] {
            lemma_lex_total(a, b, i + 1);
        } else {
            vstd::utf8::char_u32_cast(a[i], a[i] as u32);
            vstd::utf8::char_u32_cast(b[i], b[i] as u32);
        }
    }
}

pub proof fn lemma_lex_trans(a: Seq<char>, b: Seq<char>, c: Seq<char>, i: int)
    requires
        lex_leq_from(a, b, i),
        lex_leq_from(b, c, i),
    ensures
        lex_leq_from(a, c, i),
    decreases a.len() - i,
{
    if i < a.len() && i < b.len() && i < c.len() && a[i] == b[i] && b[i] == c[i] {
        lemma_lex_trans(a, b, c, i + 1);
    }
}

/// Compares two rendered dates; returns whether `a` is at most `b`.
pub fn date_leq(a: &str, b: &str) -> (r: bool)
    ensures
        r == lex_leq(a@, b@),
{
    let alen = a.unicode_len();
    let blen = b.unicode_len();
    let mut i: usize = 0;
    while i < alen
        invariant
            i <= alen,
            alen == a@.len(),
            blen == b@.len(),
            lex_leq(a@, b@) == lex_leq_from(a@, b@, i as int),
        decreases alen - i,
    {
        if i >= blen {
            return false;
        }
        let ca = a.get_char(i);
        let cb = b.get_char(i);
        if ca == cb {
            i = i + 1;
        } else {
            return (ca as u32) < (cb as u32);
        }
    }
    true
}

// ---------------------------------------------------------------------------
// Stable insertion sort of sessions, newest rendered date first.
// ---------------------------------------------------------------------------

/// Sessions stand in non-increasing date order.
pub open spec fn sorted_sessions_desc(s: Seq<SessionV>) -> bool {
    forall|i: int, j: int|
        0 <= i < j < s.len() ==> #[trigger] lex_leq(s[j].date, s[i].date)
}

/// Inserts `x` behind every session whose date is at least `x.date`:
/// the stable insertion step of a descending sort.
pub open spec fn insert_session(s: Seq<SessionV>, x: SessionV) -> Seq<SessionV>
    decreases s.len(),
{
    if s.len() == 0 {
        seq![x]
    } else if lex_leq(x.date, s[0].date) {
        seq![s[0]] + insert_session(s.skip(1), x)
    } else {
        seq![x] + s
    }
}

/// Stable insertion sort of sessions by date, descending.
pub open spec fn sort_sessions(s: Seq<SessionV>) -> Seq<SessionV>
    decreases s.len(),
{
    if s.len() == 0 {
        Seq::empty()
    } else {
        insert_session(sort_sessions(s.drop_last()), s.last())
    }
}

/// The subsequence of sessions whose date is exactly `d`, in order.
pub open spec fn sessions_with_date(s: Seq<SessionV>, d: Seq<char>) -> Seq<SessionV>
    decreases s.len(),
{
    if s.len() == 0 {
        Seq::empty()
    } else if s[0].date == d {
        seq![s[0]] + sessions_with_date(s.skip(1), d)
    } else {
        sessions_with_date(s.skip(1), d)
    }
}

pub proof fn lemma_insert_session_len(s: Seq<SessionV>, x: SessionV)
    ensures
        insert_session(s, x).len() == s.len() + 1,
    decreases s.len(),
{
    if s.len() > 0 && lex_leq(x.date, s[0].date) {
        lemma_insert_session_len(s.skip(1), x);
    }
}

pub proof fn lemma_insert_session_elems(s: Seq<SessionV>, x: SessionV)
    ensures
        forall|k: int|
            0 <= k < insert_session(s, x).len() ==> (#[trigger] insert_session(s, x)[k] == x
                || s.contains(insert_session(s, x)[k])),
    decreases s.len(),
{
    lemma_insert_session_len(s, x);
    if s.len() > 0 && lex_leq(x.date, s[0].date) {
        lemma_insert_session_elems(s.skip(1), x);
        lemma_insert_session_len(s.skip(1), x);
        assert forall|k: int|
            0 <= k < insert_session(s, x).len() implies (#[trigger] insert_session(s, x)[k] == x
            || s.contains(insert_session(s, x)[k])) by {
            if k > 0 {
                let r = insert_session(s.skip(1), x);
                assert(insert_session(s, x)[k] == r[k - 1]);
                if r[k - 1] != x {
                    let m = choose|m: int| 0 <= m < s.skip(1).len() && s.skip(1)[m] == r[k - 1];
                    assert(s[m + 1] == r[k - 1]);
                }
            }
        }
    }
}

/// Where the first `p` sessions all have a date at least `x.date` and the
/// next one, if any, has a smaller date, insertion lands exactly at `p`.
pub proof fn lemma_insert_session_at(s: Seq<SessionV>, x: SessionV, p: int)
    requires
        0 <= p <= s.len(),
        forall|k: int| 0 <= k < p ==> lex_leq(x.date, #[trigger] s[k].date),
        p < s.len() ==> !lex_leq(x.date, s[p].date),
    ensures
        insert_session(s, x) == s.subrange(0, p) + seq![x] + s.subrange(p, s.len() as int),
    decreases s.len(),
{
    if s.len() == 0 {
        assert(insert_session(s, x) =~= s.subrange(0, p) + seq![x] + s.subrange(p, s.len() as int));
    } else if p == 0 {
        assert(insert_session(s, x) =~= s.subrange(0, p) + seq![x] + s.subrange(p, s.len() as int));
    } else {
        assert(lex_leq(x.date, s[0].date));
        let t = s.skip(1);
        assert forall|k: int| 0 <= k < p - 1 implies lex_leq(x.date, #[trigger] t[k].date) by {
            assert(t[k] == s[k + 1]);
        }
        lemma_insert_session_at(t, x, p - 1);
        assert(insert_session(s, x) =~= s.subrange(0, p) + seq![x] + s.subrange(p, s.len() as int));
    }
}

pub proof fn lemma_insert_session_sorted(s: Seq<SessionV>, x: SessionV)
    requires
        sorted_sessions_desc(s),
    ensures
        sorted_sessions_desc(insert_session(s, x)),
    decreases s.len(),
{
    lemma_insert_session_len(s, x);
    if s.len() == 0 {
    } else if lex_leq(x.date, s[0].date) {
        let t = s.skip(1);
        lemma_insert_session_sorted(t, x);
        lemma_insert_session_elems(t, x);
        lemma_insert_session_len(t, x);
        let r = insert_session(s, x);
        let rt = insert_session(t, x);
        assert forall|i: int, j: int| 0 <= i < j < r.len() implies #[trigger] lex_leq(
            r[j].date,
            r[i].date,
        ) by {
            if i == 0 {
                assert(r[j] == rt[j - 1]);
                if rt[j - 1] == x {
                } else {
                    let m = choose|m: int| 0 <= m < t.len() && t[m] == rt[j - 1];
                    assert(s[m + 1] == rt[j - 1]);
                    if m + 1 > 0 {
                        assert(lex_leq(s[m + 1].date, s[0].date));
                    }
                }
            } else {
                assert(r[i] == rt[i - 1] && r[j] == rt[j - 1]);
            }
        }
    } else {
        lemma_lex_total(x.date, s[0].date, 0);
        let r = insert_session(s, x);
        assert forall|i: int, j: int| 0 <= i < j < r.len() implies #[trigger] lex_leq(
            r[j].date,
            r[i].date,
        ) by {
            if i == 0 {
                assert(r[j] == s[j - 1]);
                if j - 1 > 0 {
                    assert(lex_leq(s[j - 1].date, s[0].date));
                    lemma_lex_trans(s[j - 1].date, s[0].date, x.date, 0);
                } else {
                    assert(lex_leq(s[0].date, x.date));
                }
            } else {
                assert(r[i] == s[i - 1] && r[j] == s[j - 1]);
            }
        }
    }
}

pub proof fn lemma_sessions_with_date_empty(s: Seq<SessionV>, d: Seq<char>)
    requires
        forall|k: int| 0 <= k < s.len() ==> (#[trigger] s[k].date) != d,
    ensures
        sessions_with_date(s, d) == Seq::<SessionV>::empty(),
    decreases s.len(),
{
    if s.len() > 0 {
        let t = s.skip(1);
        assert forall|k: int| 0 <= k < t.len() implies (#[trigger] t[k].date) != d by {
            assert(t[k] == s[k + 1]);
        }
        lemma_sessions_with_date_empty(t, d);
    }
}

/// Inserting `x` appends it to the subsequence of its own date and leaves
/// every other date's subsequence unchanged, when `s` is sorted.
pub proof fn lemma_insert_session_filter(s: Seq<SessionV>, x: SessionV, d: Seq<char>)
    requires
        sorted_sessions_desc(s),
    ensures
        x.date == d ==> sessions_with_date(insert_session(s, x), d) == sessions_with_date(s, d)
            + seq![x],
        x.date != d ==> sessions_with_date(insert_session(s, x), d) == sessions_with_date(s, d),
    decreases s.len(),
{
    reveal_with_fuel(sessions_with_date, 3);    let r = insert_session(s, x);
    if s.len() == 0 {
        assert(r == seq![x]);
        assert(r[0] == x);
        assert(r.skip(1) =~= Seq::<SessionV>::empty());
        if x.date == d {
            assert(sessions_with_date(r, d) =~= sessions_with_date(s, d) + seq![x]);
        } else {
            assert(sessions_with_date(r, d) =~= sessions_with_date(s, d));
        }
    } else if lex_leq(x.date, s[0].date) {
        let t = s.skip(1);
        assert forall|i: int, j: int| 0 <= i < j < t.len() implies #[trigger] lex_leq(
            t[j].date,
            t[i].date,
        ) by {
            assert(t[i] == s[i + 1] && t[j] == s[j + 1]);
        }
        lemma_insert_session_filter(t, x, d);
        assert(r == seq![s[0]] + insert_session(t, x));
        assert(r.skip(1) =~= insert_session(t, x));
        assert(r[0] == s[0]);
        if x.date == d {
            assert(sessions_with_date(r, d) =~= sessions_with_date(s, d) + seq![x]);
        } else {
            assert(sessions_with_date(r, d) =~= sessions_with_date(s, d));
        }
    } else {
        // x stands first; no session in s shares its date.
        lemma_lex_total(x.date, s[0].date, 0);
        assert(r == seq![x] + s);
        assert(r.skip(1) =~= s);
        assert(r[0] == x);
        if x.date == d {
            assert forall|k: int| 0 <= k < s.len() implies (#[trigger] s[k].date) != d by {
                if s[k].date == d {
                    if k == 0 {
                        lemma_lex_refl(x.date, 0);
                    } else {
                        assert(lex_leq(s[k].date, s[0].date));
                    }
                }
            }
            lemma_sessions_with_date_empty(s, d);
            assert(sessions_with_date(r, d) =~= sessions_with_date(s, d) + seq![x]);
        } else {
            assert(sessions_with_date(r, d) =~= sessions_with_date(s, d));
        }
    }
}

pub proof fn lemma_sessions_with_date_snoc(s: Seq<SessionV>, x: SessionV, d: Seq<char>)
    ensures
        x.date == d ==> sessions_with_date(s.push(x), d) == sessions_with_date(s, d) + seq![x],
        x.date != d ==> sessions_with_date(s.push(x), d) == sessions_with_date(s, d),
    decreases s.len(),
{
    reveal_with_fuel(sessions_with_date, 3);    if s.len() == 0 {
        assert(s.push(x)[0] == x);
        assert(s.push(x).skip(1) =~= Seq::<SessionV>::empty());
        if x.date == d {
            assert(sessions_with_date(s.push(x), d) =~= sessions_with_date(s, d) + seq![x]);
        } else {
            assert(sessions_with_date(s.push(x), d) =~= sessions_with_date(s, d));
        }
    } else {
        let t = s.skip(1);
        assert(s.push(x).skip(1) =~= t.push(x));
        assert(s.push(x)[0] == s[0]);
        lemma_sessions_with_date_snoc(t, x, d);
        assert(sessions_with_date(s.push(x), d) == if s[0].date == d {
            seq![s[0]] + sessions_with_date(t.push(x), d)
        } else {
            sessions_with_date(t.push(x), d)
        });
        if x.date == d {
            assert(sessions_with_date(s.push(x), d) =~= sessions_with_date(s, d) + seq![x]);
        } else {
            assert(sessions_with_date(s.push(x), d) =~= sessions_with_date(s, d));
        }
    }
}

pub proof fn lemma_sort_sessions_sorted(s: Seq<SessionV>)
    ensures
        sorted_sessions_desc(sort_sessions(s)),
    decreases s.len(),
{
    if s.len() > 0 {
        lemma_sort_sessions_sorted(s.drop_last());
        lemma_insert_session_sorted(sort_sessions(s.drop_last()), s.last());
    }
}

/// A sequence already in non-increasing date order sorts to itself.
pub proof fn lemma_sort_sessions_of_sorted(s: Seq<SessionV>)
    requires
        sorted_sessions_desc(s),
    ensures
        sort_sessions(s) == s,
    decreases s.len(),
{
    if s.len() > 0 {
        let t = s.drop_last();
        assert forall|i: int, j: int| 0 <= i < j < t.len() implies #[trigger] lex_leq(
            t[j].date,
            t[i].date,
        ) by {
            assert(t[i] == s[i] && t[j] == s[j]);
        }
        lemma_sort_sessions_of_sorted(t);
        let x = s.last();
        assert forall|k: int| 0 <= k < t.len() implies lex_leq(x.date, #[trigger] t[k].date) by {
            assert(t[k] == s[k]);
            assert(lex_leq(s[s.len() - 1].date, s[k].date));
        }
        lemma_insert_session_at(t, x, t.len() as int);
        assert(t.subrange(0, t.len() as int) + seq![x] + t.subrange(
            t.len() as int,
            t.len() as int,
        ) =~= s);
    }
}

/// Stability of the session sort: for every date, the sessions carrying
/// that date come out in the order they went in.
pub proof fn lemma_sort_sessions_stable(s: Seq<SessionV>, d: Seq<char>)
    ensures
        sessions_with_date(sort_sessions(s), d) == sessions_with_date(s, d),
    decreases s.len(),
{
    if s.len() == 0 {
    } else {
        let t = s.drop_last();
        let x = s.last();
        lemma_sort_sessions_stable(t, d);
        lemma_sort_sessions_sorted(t);
        lemma_insert_session_filter(sort_sessions(t), x, d);
        assert(t.push(x) =~= s);
        lemma_sessions_with_date_snoc(t, x, d);
    }
}

// ---------------------------------------------------------------------------
// Stable insertion sort of tabs, ascending by capture index.
// ---------------------------------------------------------------------------

/// Tabs stand in non-decreasing index order.
pub open spec fn sorted_tabs_asc(s: Seq<TabV>) -> bool {
    forall|i: int, j: int| 0 <= i < j < s.len() ==> #[trigger] s[i].index <= #[trigger] s[j].index
}

/// Inserts `x` behind every tab whose index is at most `x.index`:
/// the stable insertion step of an ascending sort.
pub open spec fn insert_tab(s: Seq<TabV>, x: TabV) -> Seq<TabV>
    decreases s.len(),
{
    if s.len() == 0 {
        seq![x]
    } else if s[0].index <= x.index {
        seq![s[0]] + insert_tab(s.skip(1), x)
    } else {
        seq![x] + s
    }
}

/// Stable insertion sort of tabs by capture index, ascending.
pub open spec fn sort_tabs(s: Seq<TabV>) -> Seq<TabV>
    decreases s.len(),
{
    if s.len() == 0 {
        Seq::empty()
    } else {
        insert_tab(sort_tabs(s.drop_last()), s.last())
    }
}

/// The subsequence of tabs whose index is exactly `n`, in order.
pub open spec fn tabs_with_index(s: Seq<TabV>, n: u64) -> Seq<TabV>
    decreases s.len(),
{
    if s.len() == 0 {
        Seq::empty()
    } else if s[0].index == n {
        seq![s[0]] + tabs_with_index(s.skip(1), n)
    } else {
        tabs_with_index(s.skip(1), n)
    }
}

pub proof fn lemma_insert_tab_len(s: Seq<TabV>, x: TabV)
    ensures
        insert_tab(s, x).len() == s.len() + 1,
    decreases s.len(),
{
    if s.len() > 0 && s[0].index <= x.index {
        lemma_insert_tab_len(s.skip(1), x);
    }
}

pub proof fn lemma_insert_tab_elems(s: Seq<TabV>, x: TabV)
    ensures
        forall|k: int|
            0 <= k < insert_tab(s, x).len() ==> (#[trigger] insert_tab(s, x)[k] == x || s.contains(
                insert_tab(s, x)[k],
            )),
    decreases s.len(),
{
    lemma_insert_tab_len(s, x);
    if s.len() > 0 && s[0].index <= x.index {
        lemma_insert_tab_elems(s.skip(1), x);
        lemma_insert_tab_len(s.skip(1), x);
        assert forall|k: int|
            0 <= k < insert_tab(s, x).len() implies (#[trigger] insert_tab(s, x)[k] == x
            || s.contains(insert_tab(s, x)[k])) by {
            if k > 0 {
                let r = insert_tab(s.skip(1), x);
                assert(insert_tab(s, x)[k] == r[k - 1]);
                if r[k - 1] != x {
                    let m = choose|m: int| 0 <= m < s.skip(1).len() && s.skip(1)[m] == r[k - 1];
                    assert(s[m + 1] == r[k - 1]);
                }
            }
        }
    }
}

/// Where the first `p` tabs all have an index at most `x.index` and the
/// next one, if any, has a greater index, insertion lands exactly at `p`.
pub proof fn lemma_insert_tab_at(s: Seq<TabV>, x: TabV, p: int)
    requires
        0 <= p <= s.len(),
        forall|k: int| 0 <= k < p ==> (#[trigger] s[k].index) <= x.index,
        p < s.len() ==> s[p].index > x.index,
    ensures
        insert_tab(s, x) == s.subrange(0, p) + seq![x] + s.subrange(p, s.len() as int),
    decreases s.len(),
{
    if s.len() == 0 {
        assert(insert_tab(s, x) =~= s.subrange(0, p) + seq![x] + s.subrange(p, s.len() as int));
    } else if p == 0 {
        assert(insert_tab(s, x) =~= s.subrange(0, p) + seq![x] + s.subrange(p, s.len() as int));
    } else {
        let t = s.skip(1);
        assert forall|k: int| 0 <= k < p - 1 implies (#[trigger] t[k].index) <= x.index by {
            assert(t[k] == s[k + 1]);
        }
        lemma_insert_tab_at(t, x, p - 1);
        assert(insert_tab(s, x) =~= s.subrange(0, p) + seq![x] + s.subrange(p, s.len() as int));
    }
}

pub proof fn lemma_insert_tab_sorted(s: Seq<TabV>, x: TabV)
    requires
        sorted_tabs_asc(s),
    ensures
        sorted_tabs_asc(insert_tab(s, x)),
    decreases s.len(),
{
    lemma_insert_tab_len(s, x);
    if s.len() == 0 {
    } else if s[0].index <= x.index {
        let t = s.skip(1);
        lemma_insert_tab_sorted(t, x);
        lemma_insert_tab_elems(t, x);
        lemma_insert_tab_len(t, x);
        let r = insert_tab(s, x);
        let rt = insert_tab(t, x);
        assert forall|i: int, j: int| 0 <= i < j < r.len() implies #[trigger] r[i].index
            <= #[trigger] r[j].index by {
            if i == 0 {
                assert(r[j] == rt[j - 1]);
                if rt[j - 1] == x {
                } else {
                    let m = choose|m: int| 0 <= m < t.len() && t[m] == rt[j - 1];
                    assert(s[m + 1] == rt[j - 1]);
                }
            } else {
                assert(r[i] == rt[i - 1] && r[j] == rt[j - 1]);
            }
        }
    } else {
        let r = insert_tab(s, x);
        assert forall|i: int, j: int| 0 <= i < j < r.len() implies #[trigger] r[i].index
            <= #[trigger] r[j].index by {
            if i == 0 {
                assert(r[j] == s[j - 1]);
            } else {
                assert(r[i] == s[i - 1] && r[j] == s[j - 1]);
            }
        }
    }
}

pub proof fn lemma_tabs_with_index_empty(s: Seq<TabV>, n: u64)
    requires
        forall|k: int| 0 <= k < s.len() ==> (#[trigger] s[k].index) != n,
    ensures
        tabs_with_index(s, n) == Seq::<TabV>::empty(),
    decreases s.len(),
{
    if s.len() > 0 {
        let t = s.skip(1);
        assert forall|k: int| 0 <= k < t.len() implies (#[trigger] t[k].index) != n by {
            assert(t[k] == s[k + 1]);
        }
        lemma_tabs_with_index_empty(t, n);
    }
}

/// Inserting `x` appends it to the subsequence of its own index and leaves
/// every other index's subsequence unchanged, when `s` is sorted.
pub proof fn lemma_insert_tab_filter(s: Seq<TabV>, x: TabV, n: u64)
    requires
        sorted_tabs_asc(s),
    ensures
        x.index == n ==> tabs_with_index(insert_tab(s, x), n) == tabs_with_index(s, n) + seq![x],
        x.index != n ==> tabs_with_index(insert_tab(s, x), n) == tabs_with_index(s, n),
    decreases s.len(),
{
    reveal_with_fuel(tabs_with_index, 3);    let r = insert_tab(s, x);
    if s.len() == 0 {
        assert(r == seq![x]);
        assert(r[0] == x);
        assert(r.skip(1) =~= Seq::<TabV>::empty());
        if x.index == n {
            assert(tabs_with_index(r, n) =~= tabs_with_index(s, n) + seq![x]);
        } else {
            assert(tabs_with_index(r, n) =~= tabs_with_index(s, n));
        }
    } else if s[0].index <= x.index {
        let t = s.skip(1);
        assert forall|i: int, j: int| 0 <= i < j < t.len() implies #[trigger] t[i].index
            <= #[trigger] t[j].index by {
            assert(t[i] == s[i + 1] && t[j] == s[j + 1]);
        }
        lemma_insert_tab_filter(t, x, n);
        assert(r == seq![s[0]] + insert_tab(t, x));
        assert(r.skip(1) =~= insert_tab(t, x));
        assert(r[0] == s[0]);
        if x.index == n {
            assert(tabs_with_index(r, n) =~= tabs_with_index(s, n) + seq![x]);
        } else {
            assert(tabs_with_index(r, n) =~= tabs_with_index(s, n));
        }
    } else {
        // x stands first; every tab in s has a strictly greater index.
        assert(r == seq![x] + s);
        assert(r.skip(1) =~= s);
        assert(r[0] == x);
        if x.index == n {
            assert forall|k: int| 0 <= k < s.len() implies (#[trigger] s[k].index) != n by {
                if k > 0 {
                    assert(s[0].index <= s[k].index);
                }
            }
            lemma_tabs_with_index_empty(s, n);
            assert(tabs_with_index(r, n) =~= tabs_with_index(s, n) + seq![x]);
        } else {
            assert(tabs_with_index(r, n) =~= tabs_with_index(s, n));
        }
    }
}

pub proof fn lemma_tabs_with_index_snoc(s: Seq<TabV>, x: TabV, n: u64)
    ensures
        x.index == n ==> tabs_with_index(s.push(x), n) == tabs_with_index(s, n) + seq![x],
        x.index != n ==> tabs_with_index(s.push(x), n) == tabs_with_index(s, n),
    decreases s.len(),
{
    reveal_with_fuel(tabs_with_index, 3);    if s.len() == 0 {
        assert(s.push(x)[0] == x);
        assert(s.push(x).skip(1) =~= Seq::<TabV>::empty());
        if x.index == n {
            assert(tabs_with_index(s.push(x), n) =~= tabs_with_index(s, n) + seq![x]);
        } else {
            assert(tabs_with_index(s.push(x), n) =~= tabs_with_index(s, n));
        }
    } else {
        let t = s.skip(1);
        assert(s.push(x).skip(1) =~= t.push(x));
        assert(s.push(x)[0] == s[0]);
        lemma_tabs_with_index_snoc(t, x, n);
        assert(tabs_with_index(s.push(x), n) == if s[0].index == n {
            seq![s[0]] + tabs_with_index(t.push(x), n)
        } else {
            tabs_with_index(t.push(x), n)
        });
        if x.index == n {
            assert(tabs_with_index(s.push(x), n) =~= tabs_with_index(s, n) + seq![x]);
        } else {
            assert(tabs_with_index(s.push(x), n) =~= tabs_with_index(s, n));
        }
    }
}

pub proof fn lemma_sort_tabs_sorted(s: Seq<TabV>)
    ensures
        sorted_tabs_asc(sort_tabs(s)),
    decreases s.len(),
{
    if s.len() > 0 {
        lemma_sort_tabs_sorted(s.drop_last());
        lemma_insert_tab_sorted(sort_tabs(s.drop_last()), s.last());
    }
}

/// A sequence already in non-decreasing index order sorts to itself.
pub proof fn lemma_sort_tabs_of_sorted(s: Seq<TabV>)
    requires
        sorted_tabs_asc(s),
    ensures
        sort_tabs(s) == s,
    decreases s.len(),
{
    if s.len() > 0 {
        let t = s.drop_last();
        assert forall|i: int, j: int| 0 <= i < j < t.len() implies #[trigger] t[i].index
            <= #[trigger] t[j].index by {
            assert(t[i] == s[i] && t[j] == s[j]);
        }
        lemma_sort_tabs_of_sorted(t);
        let x = s.last();
        assert forall|k: int| 0 <= k < t.len() implies (#[trigger] t[k].index) <= x.index by {
            assert(t[k] == s[k]);
            assert(s[k].index <= s[s.len() - 1].index);
        }
        lemma_insert_tab_at(t, x, t.len() as int);
        assert(t.subrange(0, t.len() as int) + seq![x] + t.subrange(t.len() as int, t.len() as int)
            =~= s);
    }
}

/// Stability of the tab sort: for every index value, the tabs carrying
/// that index come out in the order they went in.
pub proof fn lemma_sort_tabs_stable(s: Seq<TabV>, n: u64)
    ensures
        tabs_with_index(sort_tabs(s), n) == tabs_with_index(s, n),
    decreases s.len(),
{
    if s.len() > 0 {
        let t = s.drop_last();
        let x = s.last();
        lemma_sort_tabs_stable(t, n);
        lemma_sort_tabs_sorted(t);
        lemma_insert_tab_filter(sort_tabs(t), x, n);
        assert(t.push(x) =~= s);
        lemma_tabs_with_index_snoc(t, x, n);
    }
}

// ---------------------------------------------------------------------------
// Executable sorting and the normalizer.
// ---------------------------------------------------------------------------

/// The mathematical values of a sequence of tabs.
pub open spec fn tab_views(v: Seq<Tab>) -> Seq<TabV> {
    v.map_values(|t: Tab| t@)
}

/// The mathematical values of a sequence of windows.
pub open spec fn window_views(v: Seq<Window>) -> Seq<WindowV> {
    v.map_values(|w: Window| w@)
}

/// The mathematical values of a sequence of sessions.
pub open spec fn session_views(v: Seq<Session>) -> Seq<SessionV> {
    v.map_values(|s: Session| s@)
}

/// Sorts a window's tabs by capture index, ascending and stable.
pub fn sort_tabs_exec(tabs: Vec<Tab>) -> (r: Vec<Tab>)
    ensures
        tab_views(r@) == sort_tabs(tab_views(tabs@)),
{
    let ghost orig: Seq<TabV> = tab_views(tabs@);
    let mut rest = tabs;
    let mut out: Vec<Tab> = Vec::new();
    proof {
        assert(orig.take(0) =~= Seq::<TabV>::empty());
        assert(orig.skip(0) =~= orig);
        assert(tab_views(out@) =~= Seq::<TabV>::empty());
    }
    while rest.len() > 0
        invariant
            rest@.len() <= orig.len(),
            tab_views(out@) == sort_tabs(orig.take(orig.len() - rest@.len())),
            tab_views(rest@) == orig.skip(orig.len() - rest@.len()),
            sorted_tabs_asc(tab_views(out@)),
        decreases rest@.len(),
    {
        let ghost done: int = orig.len() - rest@.len();
        let ghost rest_old = rest@;
        let x = rest.remove(0);
        let ghost xv = x@;
        proof {
            assert(tab_views(rest_old)[0] == xv);
            assert(xv == orig[done]);
            assert(rest_old.remove(0) =~= rest_old.skip(1));
            assert forall|k: int| 0 <= k < rest@.len() implies #[trigger] tab_views(rest@)[k]
                == orig.skip(done + 1)[k] by {
                assert(tab_views(rest@)[k] == rest@[k]@);
                assert(rest@[k] == rest_old[k + 1]);
                assert(tab_views(rest_old)[k + 1] == rest_old[k + 1]@);
            }
            assert(tab_views(rest@) =~= orig.skip(done + 1));
        }
        let ghost outv_old = tab_views(out@);
        let mut p: usize = 0;
        while p < out.len() && out[p].index <= x.index
            invariant
                p <= out@.len(),
                outv_old == tab_views(out@),
                xv == x@,
                forall|k: int| 0 <= k < p ==> (#[trigger] outv_old[k].index) <= xv.index,
            decreases out@.len() - p,
        {
            proof {
                assert(outv_old[p as int] == out@[p as int]@);
            }
            p = p + 1;
        }
        proof {
            if (p as int) < outv_old.len() {
                assert(outv_old[p as int] == out@[p as int]@);
            }
        }
        out.insert(p, x);
        proof {
            lemma_insert_tab_at(outv_old, xv, p as int);
            assert(tab_views(out@) =~= outv_old.subrange(0, p as int) + seq![xv] + outv_old.subrange(
                p as int,
                outv_old.len() as int,
            ));
            assert(orig.take(done + 1).drop_last() =~= orig.take(done));
            assert(orig.take(done + 1).last() == orig[done]);
            assert(tab_views(out@) == insert_tab(sort_tabs(orig.take(done)), orig[done]));
            lemma_insert_tab_sorted(outv_old, xv);
        }
    }
    proof {
        assert(orig.take(orig.len() as int) =~= orig);
    }
    out
}

/// Sorts sessions by rendered date, newest first, stable.
pub fn sort_sessions_exec(sessions: Vec<Session>) -> (r: Vec<Session>)
    ensures
        session_views(r@) == sort_sessions(session_views(sessions@)),
{
    let ghost orig: Seq<SessionV> = session_views(sessions@);
    let mut rest = sessions;
    let mut out: Vec<Session> = Vec::new();
    proof {
        assert(orig.take(0) =~= Seq::<SessionV>::empty());
        assert(orig.skip(0) =~= orig);
        assert(session_views(out@) =~= Seq::<SessionV>::empty());
    }
    while rest.len() > 0
        invariant
            rest@.len() <= orig.len(),
            session_views(out@) == sort_sessions(orig.take(orig.len() - rest@.len())),
            session_views(rest@) == orig.skip(orig.len() - rest@.len()),
            sorted_sessions_desc(session_views(out@)),
        decreases rest@.len(),
    {
        let ghost done: int = orig.len() - rest@.len();
        let ghost rest_old = rest@;
        let x = rest.remove(0);
        let ghost xv = x@;
        proof {
            assert(session_views(rest_old)[0] == xv);
            assert(xv == orig[done]);
            assert(rest_old.remove(0) =~= rest_old.skip(1));
            assert forall|k: int| 0 <= k < rest@.len() implies #[trigger] session_views(rest@)[k]
                == orig.skip(done + 1)[k] by {
                assert(session_views(rest@)[k] == rest@[k]@);
                assert(rest@[k] == rest_old[k + 1]);
                assert(session_views(rest_old)[k + 1] == rest_old[k + 1]@);
            }
            assert(session_views(rest@) =~= orig.skip(done + 1));
        }
        let ghost outv_old = session_views(out@);
        let mut p: usize = 0;
        while p < out.len() && date_leq(x.date.as_str(), out[p].date.as_str())
            invariant
                p <= out@.len(),
                outv_old == session_views(out@),
                xv == x@,
                forall|k: int| 0 <= k < p ==> lex_leq(xv.date, #[trigger] outv_old[k].date),
            decreases out@.len() - p,
        {
            proof {
                assert(outv_old[p as int] == out@[p as int]@);
            }
            p = p + 1;
        }
        proof {
            if (p as int) < outv_old.len() {
                assert(outv_old[p as int] == out@[p as int]@);
            }
        }
        out.insert(p, x);
        proof {
            lemma_insert_session_at(outv_old, xv, p as int);
            assert(session_views(out@) =~= outv_old.subrange(0, p as int) + seq![xv]
                + outv_old.subrange(p as int, outv_old.len() as int));
            assert(orig.take(done + 1).drop_last() =~= orig.take(done));
            assert(orig.take(done + 1).last() == orig[done]);
            assert(session_views(out@) == insert_session(sort_sessions(orig.take(done)), orig[done]));
            lemma_insert_session_sorted(outv_old, xv);
        }
    }
    proof {
        assert(orig.take(orig.len() as int) =~= orig);
    }
    out
}

/// A window after normalization: its tabs sorted by capture index.
pub open spec fn norm_window(w: WindowV) -> WindowV {
    WindowV { tabs: sort_tabs(w.tabs) }
}

/// A session after normalization: every window's tabs sorted.
pub open spec fn norm_session(s: SessionV) -> SessionV {
    SessionV { name: s.name, date: s.date, windows: s.windows.map_values(|w: WindowV| norm_window(w)) }
}

/// The normalized form of an export: sessions sorted newest first, and
/// within each window the tabs sorted back to capture order.
pub open spec fn normalize_spec(e: ExportV) -> ExportV {
    ExportV { sessions: sort_sessions(e.sessions).map_values(|s: SessionV| norm_session(s)) }
}

/// Reorders a decoded export: sessions newest first, tabs in capture order.
pub fn normalize(e: Export) -> (r: Export)
    ensures
        r@ == normalize_spec(e@),
{
    let ghost ev = e@;
    let mut sorted = sort_sessions_exec(e.sessions);
    let ghost sortedv: Seq<SessionV> = session_views(sorted@);
    let mut out: Vec<Session> = Vec::new();
    proof {
        assert(sortedv.take(0) =~= Seq::<SessionV>::empty());
        assert(sortedv.skip(0) =~= sortedv);
        assert(session_views(out@) =~= sortedv.take(0).map_values(|s: SessionV| norm_session(s)));
    }
    while sorted.len() > 0
        invariant
            sorted@.len() <= sortedv.len(),
            session_views(out@) == sortedv.take(sortedv.len() - sorted@.len()).map_values(
                |s: SessionV| norm_session(s),
            ),
            session_views(sorted@) == sortedv.skip(sortedv.len() - sorted@.len()),
        decreases sorted@.len(),
    {
        let ghost done: int = sortedv.len() - sorted@.len();
        let ghost rest_old = sorted@;
        let s = sorted.remove(0);
        let ghost sv = s@;
        proof {
            assert(session_views(rest_old)[0] == sv);
            assert(sv == sortedv[done]);
            assert(rest_old.remove(0) =~= rest_old.skip(1));
            assert forall|k: int| 0 <= k < sorted@.len() implies #[trigger] session_views(
                sorted@,
            )[k] == sortedv.skip(done + 1)[k] by {
                assert(session_views(sorted@)[k] == sorted@[k]@);
                assert(sorted@[k] == rest_old[k + 1]);
                assert(session_views(rest_old)[k + 1] == rest_old[k + 1]@);
            }
            assert(session_views(sorted@) =~= sortedv.skip(done + 1));
        }
        let Session { name, date, windows } = s;
        let ghost wv: Seq<WindowV> = window_views(windows@);
        let mut wrest = windows;
        let mut wout: Vec<Window> = Vec::new();
        proof {
            assert(wv.take(0) =~= Seq::<WindowV>::empty());
            assert(wv.skip(0) =~= wv);
            assert(window_views(wout@) =~= wv.take(0).map_values(|w: WindowV| norm_window(w)));
        }
        while wrest.len() > 0
            invariant
                wrest@.len() <= wv.len(),
                window_views(wout@) == wv.take(wv.len() - wrest@.len()).map_values(
                    |w: WindowV| norm_window(w),
                ),
                window_views(wrest@) == wv.skip(wv.len() - wrest@.len()),
            decreases wrest@.len(),
        {
            let ghost wdone: int = wv.len() - wrest@.len();
            let ghost wrest_old = wrest@;
            let w = wrest.remove(0);
            let ghost wvv = w@;
            proof {
                assert(window_views(wrest_old)[0] == wvv);
                assert(wvv == wv[wdone]);
                assert(wrest_old.remove(0) =~= wrest_old.skip(1));
                assert forall|k: int| 0 <= k < wrest@.len() implies #[trigger] window_views(
                    wrest@,
                )[k] == wv.skip(wdone + 1)[k] by {
                    assert(window_views(wrest@)[k] == wrest@[k]@);
                    assert(wrest@[k] == wrest_old[k + 1]);
                    assert(window_views(wrest_old)[k + 1] == wrest_old[k + 1]@);
                }
                assert(window_views(wrest@) =~= wv.skip(wdone + 1));
            }
            let t = sort_tabs_exec(w.tabs);
            let ghost wout_old = window_views(wout@);
            wout.push(Window { tabs: t });
            proof {
                assert(window_views(wout@) =~= wout_old.push(norm_window(wv[wdone])));
                assert(wv.take(wdone + 1).drop_last() =~= wv.take(wdone));
                assert(wv.take(wdone + 1).last() == wv[wdone]);
                assert(window_views(wout@) =~= wv.take(wdone + 1).map_values(
                    |w0: WindowV| norm_window(w0),
                ));
            }
        }
        proof {
            assert(wv.take(wv.len() as int) =~= wv);
        }
        let ghost out_old = session_views(out@);
        out.push(Session { name, date, windows: wout });
        proof {
            assert(window_views(wout@) == wv.map_values(|w0: WindowV| norm_window(w0)));
            assert(session_views(out@) =~= out_old.push(norm_session(sortedv[done])));
            assert(sortedv.take(done + 1).drop_last() =~= sortedv.take(done));
            assert(sortedv.take(done + 1).last() == sortedv[done]);
            assert(session_views(out@) =~= sortedv.take(done + 1).map_values(
                |s0: SessionV| norm_session(s0),
            ));
        }
    }
    proof {
        assert(sortedv.take(sortedv.len() as int) =~= sortedv);
        assert(Export { sessions: out }@ =~~= normalize_spec(ev));
    }
    Export { sessions: out }
}

// ---------------------------------------------------------------------------
// Laws of the normalizer.
// ---------------------------------------------------------------------------

pub proof fn lemma_norm_window_idempotent(w: WindowV)
    ensures
        norm_window(norm_window(w)) == norm_window(w),
{
    lemma_sort_tabs_sorted(w.tabs);
    lemma_sort_tabs_of_sorted(sort_tabs(w.tabs));
}

pub proof fn lemma_norm_session_idempotent(s: SessionV)
    ensures
        norm_session(norm_session(s)) == norm_session(s),
{
    let m = s.windows.map_values(|w: WindowV| norm_window(w));
    let mm = m.map_values(|w: WindowV| norm_window(w));
    assert forall|i: int| 0 <= i < m.len() implies #[trigger] mm[i] == m[i] by {
        assert(m[i] == norm_window(s.windows[i]));
        lemma_norm_window_idempotent(s.windows[i]);
    }
    assert(mm =~= m);
}

/// Normalizing twice yields the same tree as normalizing once.
pub proof fn lemma_normalize_idempotent(e: ExportV)
    ensures
        normalize_spec(normalize_spec(e)) == normalize_spec(e),
{
    let s1 = sort_sessions(e.sessions);
    lemma_sort_sessions_sorted(e.sessions);
    let m = s1.map_values(|s: SessionV| norm_session(s));
    assert forall|i: int, j: int| 0 <= i < j < m.len() implies #[trigger] lex_leq(
        m[j].date,
        m[i].date,
    ) by {
        assert(m[i] == norm_session(s1[i]));
        assert(m[j] == norm_session(s1[j]));
        assert(lex_leq(s1[j].date, s1[i].date));
    }
    lemma_sort_sessions_of_sorted(m);
    let mm = m.map_values(|s: SessionV| norm_session(s));
    assert forall|k: int| 0 <= k < m.len() implies #[trigger] mm[k] == m[k] by {
        assert(m[k] == norm_session(s1[k]));
        lemma_norm_session_idempotent(s1[k]);
    }
    assert(mm =~= m);
    assert(normalize_spec(normalize_spec(e)) =~~= normalize_spec(e));
}

/// The normalizer's output lists sessions newest first.
pub proof fn lemma_normalize_sorted(e: ExportV)
    ensures
        sorted_sessions_desc(normalize_spec(e).sessions),
{
    let s1 = sort_sessions(e.sessions);
    lemma_sort_sessions_sorted(e.sessions);
    let m = s1.map_values(|s: SessionV| norm_session(s));
    assert forall|i: int, j: int| 0 <= i < j < m.len() implies #[trigger] lex_leq(
        m[j].date,
        m[i].date,
    ) by {
        assert(m[i] == norm_session(s1[i]));
        assert(m[j] == norm_session(s1[j]));
        assert(lex_leq(s1[j].date, s1[i].date));
    }
}

/// The normalizer's output has, in every window, tabs in capture order.
pub proof fn lemma_normalize_tabs_sorted(e: ExportV)
    ensures
        forall|i: int, j: int|
            0 <= i < normalize_spec(e).sessions.len() && 0 <= j
                < normalize_spec(e).sessions[i].windows.len() ==> sorted_tabs_asc(
                #[trigger] normalize_spec(e).sessions[i].windows[j].tabs,
            ),
{
    let m = sort_sessions(e.sessions).map_values(|s: SessionV| norm_session(s));
    assert forall|i: int, j: int|
        0 <= i < m.len() && 0 <= j < m[i].windows.len() implies sorted_tabs_asc(
        #[trigger] m[i].windows[j].tabs,
    ) by {
        let s1 = sort_sessions(e.sessions);
        assert(m[i] == norm_session(s1[i]));
        assert(m[i].windows[j] == norm_window(s1[i].windows[j]));
        lemma_sort_tabs_sorted(s1[i].windows[j].tabs);
    }
}


/// Filtering by date commutes with per-session normalization, which
/// keeps every date.
proof fn lemma_sessions_with_date_map_norm(s: Seq<SessionV>, d: Seq<char>)
    ensures
        sessions_with_date(s.map_values(|x: SessionV| norm_session(x)), d) == sessions_with_date(
            s,
            d,
        ).map_values(|x: SessionV| norm_session(x)),
    decreases s.len(),
{
    let m = s.map_values(|x: SessionV| norm_session(x));
    if s.len() == 0 {
        assert(sessions_with_date(m, d) =~= sessions_with_date(s, d).map_values(
            |x: SessionV| norm_session(x),
        ));
    } else {
        assert(m[0] == norm_session(s[0]));
        assert(m.skip(1) =~= s.skip(1).map_values(|x: SessionV| norm_session(x)));
        lemma_sessions_with_date_map_norm(s.skip(1), d);
        if s[0].date == d {
            assert(sessions_with_date(m, d) =~= sessions_with_date(s, d).map_values(
                |x: SessionV| norm_session(x),
            ));
        } else {
            assert(sessions_with_date(m, d) =~= sessions_with_date(s, d).map_values(
                |x: SessionV| norm_session(x),
            ));
        }
    }
}

/// Stability of the whole normalizer: among the sessions that share one
/// rendered date, the names come out in the order they went in.
pub proof fn lemma_normalize_stable(e: ExportV, d: Seq<char>)
    ensures
        sessions_with_date(normalize_spec(e).sessions, d).map_values(|x: SessionV| x.name)
            == sessions_with_date(e.sessions, d).map_values(|x: SessionV| x.name),
{
    let s1 = sort_sessions(e.sessions);
    lemma_sessions_with_date_map_norm(s1, d);
    lemma_sort_sessions_stable(e.sessions, d);
    let f = sessions_with_date(e.sessions, d);
    assert(sessions_with_date(normalize_spec(e).sessions, d) == f.map_values(
        |x: SessionV| norm_session(x),
    ));
    let lhs = f.map_values(|x: SessionV| norm_session(x)).map_values(|x: SessionV| x.name);
    assert forall|i: int| 0 <= i < f.len() implies #[trigger] lhs[i] == f[i].name by {
        assert(f.map_values(|x: SessionV| norm_session(x))[i] == norm_session(f[i]));
    }
    assert(lhs =~= f.map_values(|x: SessionV| x.name));
}


/// Stability of window normalization: among the tabs that share one
/// capture index, the order they went in is kept.
pub proof fn lemma_norm_window_stable(w: WindowV, n: u64)
    ensures
        tabs_with_index(norm_window(w).tabs, n) == tabs_with_index(w.tabs, n),
{
    lemma_sort_tabs_stable(w.tabs, n);
}

} // verus!
