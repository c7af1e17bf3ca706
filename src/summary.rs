use vstd::prelude::*;
use crate::date::Date;
use crate::session::{Session, abs, abs_total, lemma_abs_total_prefix};

verus! {

/// Whether a session's date lies in the closed range of day numbers `lo..=hi`.
pub open spec fn in_window(s: Session, lo: int, hi: int) -> bool {
    lo <= s.date.days <= hi
}

/// Sum of the minutes of the sessions of `ss` in the window whose topic is `topic`.
pub open spec fn topic_total(ss: Seq<Session>, lo: int, hi: int, topic: Seq<char>) -> int
    decreases ss.len(),
{
    if ss.len() == 0 {
        0
    } else {
        topic_total(ss.drop_last(), lo, hi, topic) + if in_window(ss.last(), lo, hi)
            && ss.last().topic@ == topic {
            ss.last().minutes as int
        } else {
            0
        }
    }
}

/// Whether some session of `ss` in the window has topic `topic`.
pub open spec fn has_topic(ss: Seq<Session>, lo: int, hi: int, topic: Seq<char>) -> bool {
    exists|i: int| 0 <= i < ss.len() && in_window(ss[i], lo, hi) && ss[i].topic@ == topic
}

/// The summary of `ss` over the window: each topic met in it, mapped to its total.
pub open spec fn totals(ss: Seq<Session>, lo: int, hi: int) -> Map<Seq<char>, int> {
    Map::new(|t: Seq<char>| has_topic(ss, lo, hi, t), |t: Seq<char>| topic_total(ss, lo, hi, t))
}

/// Per-topic minute totals. Each topic appears once.
pub struct Summary {
    topics: Vec<String>,
    minutes: Vec<i64>,
}

pub open spec fn has_key(topics: Seq<String>, t: Seq<char>) -> bool {
    exists|k: int| 0 <= k < topics.len() && topics[k]@ == t
}

impl Summary {
    /// The topics held, each mapped to its total.
    pub closed spec fn view(&self) -> Map<Seq<char>, int> {
        Map::new(
            |t: Seq<char>| has_key(self.topics@, t),
            |t: Seq<char>|
                self.minutes@[choose|k: int| 0 <= k < self.topics@.len() && self.topics@[k]@ == t] as int,
        )
    }

    /// Topics and totals line up, and no topic is held twice.
    pub closed spec fn wf(&self) -> bool {
        &&& self.topics@.len() == self.minutes@.len()
        &&& forall|j: int, k: int|
            0 <= j < self.topics@.len() && 0 <= k < self.topics@.len() && j != k
                ==> self.topics@[j]@ != self.topics@[k]@
    }

    /// Number of topics held.
    pub closed spec fn size(&self) -> nat {
        self.topics@.len()
    }

    pub proof fn lemma_size(&self)
        requires
            self.wf(),
        ensures
            self.size() == self@.dom().len(),
            self@.dom().finite(),
    {
        let f = |k: int| self.topics@[k]@;
        let idx = Set::new(|k: int| 0 <= k < self.topics@.len());
        assert(idx =~= vstd::set_lib::set_int_range(0, self.topics@.len() as int));
        vstd::set_lib::lemma_int_range(0, self.topics@.len() as int);
        assert forall|t: Seq<char>| self@.dom().contains(t) <==> idx.map(f).contains(t) by {
            if self@.dom().contains(t) {
                let k = choose|k: int| 0 <= k < self.topics@.len() && self.topics@[k]@ == t;
                assert(idx.contains(k) && f(k) == t);
            }
        }
        assert(idx.map(f) =~= self@.dom());
        assert forall|a: int, b: int| idx.contains(a) && idx.contains(b) && f(a) == f(b) implies a == b by {}
        vstd::set_lib::lemma_map_size(idx, idx.map(f), f);
    }

    pub fn len(&self) -> (r: usize)
        requires
            self.wf(),
        ensures
            r == self@.dom().len(),
    {
        proof {
            self.lemma_size();
        }
        self.topics.len()
    }

    pub fn is_empty(&self) -> (r: bool)
        requires
            self.wf(),
        ensures
            r == (self@.dom().len() == 0),
    {
        proof {
            self.lemma_size();
        }
        self.topics.len() == 0
    }

    /// Index of `topic` among the topics held, if it is there.
    fn position(&self, topic: &String) -> (r: Option<usize>)
        ensures
            r matches Some(k) ==> k < self.topics@.len() && self.topics@[k as int]@ == topic@,
            r is None ==> !has_key(self.topics@, topic@),
    {
        let mut k: usize = 0;
        while k < self.topics.len()
            invariant
                0 <= k <= self.topics@.len(),
                forall|j: int| 0 <= j < k ==> self.topics@[j]@ != topic@,
            decreases self.topics@.len() - k,
        {
            if self.topics[k] == *topic {
                return Some(k);
            }
            k = k + 1;
        }
        None
    }

    /// Total of `topic`, or `None` where it is not held.
    pub fn get(&self, topic: &str) -> (r: Option<i64>)
        requires
            self.wf(),
        ensures
            r is Some <==> self@.contains_key(topic@),
            r matches Some(m) ==> m == self@[topic@],
    {
        let key = topic.to_owned();
        match self.position(&key) {
            Some(k) => Some(self.minutes[k]),
            None => None,
        }
    }
}

pub proof fn lemma_topic_total_bound(ss: Seq<Session>, lo: int, hi: int, t: Seq<char>)
    ensures
        abs(topic_total(ss, lo, hi, t)) <= abs_total(ss),
    decreases ss.len(),
{
    if ss.len() > 0 {
        lemma_topic_total_bound(ss.drop_last(), lo, hi, t);
    }
}

pub proof fn lemma_topic_total_absent(ss: Seq<Session>, lo: int, hi: int, t: Seq<char>)
    requires
        !has_topic(ss, lo, hi, t),
    ensures
        topic_total(ss, lo, hi, t) == 0,
    decreases ss.len(),
{
    if ss.len() > 0 {
        let pre = ss.drop_last();
        assert forall|i: int| 0 <= i < pre.len() implies !(in_window(pre[i], lo, hi) && pre[i].topic@ == t) by {
            assert(pre[i] == ss[i]);
        }
        assert(!(in_window(ss[ss.len() - 1], lo, hi) && ss[ss.len() - 1].topic@ == t));
        lemma_topic_total_absent(pre, lo, hi, t);
    }
}

/// Totals of the sessions dated within the day numbers `lo..=hi`.
fn totals_within(sessions: &[Session], lo: i64, hi: i64) -> (r: Summary)
    requires
        abs_total(sessions@) <= i64::MAX,
    ensures
        r.wf(),
        r@ == totals(sessions@, lo as int, hi as int),
{
    let ghost ss = sessions@;
    let mut out = Summary { topics: Vec::new(), minutes: Vec::new() };
    let mut i: usize = 0;
    while i < sessions.len()
        invariant
            0 <= i <= ss.len(),
            ss == sessions@,
            abs_total(ss) <= i64::MAX,
            out.wf(),
            forall|k: int|
                #![trigger out.topics@[k]]
                0 <= k < out.topics@.len() ==> has_topic(ss.take(i as int), lo as int, hi as int, out.topics@[k]@)
                    && out.minutes@[k] == topic_total(ss.take(i as int), lo as int, hi as int, out.topics@[k]@),
            forall|t: Seq<char>| has_topic(ss.take(i as int), lo as int, hi as int, t) ==> has_key(out.topics@, t),
        decreases ss.len() - i,
    {
        let ghost pre = ss.take(i as int);
        let ghost post = ss.take(i + 1);
        assert(post.drop_last() =~= pre);
        let s = &sessions[i];
        assert(post.last() == *s);
        let d = s.date.days as i64;
        if lo <= d && d <= hi {
            assert forall|t: Seq<char>| has_topic(post, lo as int, hi as int, t) <==> has_topic(pre, lo as int, hi as int, t) || t == s.topic@ by {
                if has_topic(post, lo as int, hi as int, t) {
                    let j = choose|j: int| 0 <= j < post.len() && in_window(post[j], lo as int, hi as int) && post[j].topic@ == t;
                    if j < i {
                        assert(pre[j] == post[j]);
                    }
                }
                if has_topic(pre, lo as int, hi as int, t) {
                    let j = choose|j: int| 0 <= j < pre.len() && in_window(pre[j], lo as int, hi as int) && pre[j].topic@ == t;
                    assert(pre[j] == post[j]);
                }
                if t == s.topic@ {
                    assert(post[i as int] == *s);
                }
            }
            match out.position(&s.topic) {
                Some(k) => {
                    proof {
                        lemma_topic_total_bound(post, lo as int, hi as int, s.topic@);
                        lemma_abs_total_prefix(ss, i + 1);
                    }
                    let v = out.minutes[k] + s.minutes;
                    out.minutes.set(k, v);
                    assert forall|j: int| 0 <= j < out.topics@.len() && j != k implies out.topics@[j]@ != s.topic@ by {}
                    assert(out.minutes@[k as int] == topic_total(post, lo as int, hi as int, out.topics@[k as int]@));
                    assert forall|t: Seq<char>| has_topic(post, lo as int, hi as int, t) implies has_key(out.topics@, t) by {
                        if t == s.topic@ {
                            assert(out.topics@[k as int]@ == t);
                        }
                    }
                },
                None => {
                    let ghost before = out.topics@;
                    out.topics.push(s.topic.clone());
                    out.minutes.push(s.minutes);
                    let ghost n = out.topics@.len() - 1;
                    assert(out.topics@[n] == s.topic);
                    assert(has_key(out.topics@, s.topic@));
                    assert forall|t: Seq<char>| has_topic(post, lo as int, hi as int, t) implies has_key(out.topics@, t) by {
                        if t != s.topic@ {
                            assert(has_key(before, t));
                            let j = choose|j: int| 0 <= j < before.len() && before[j]@ == t;
                            assert(out.topics@[j] == before[j]);
                        }
                    }
                    proof {
                        lemma_topic_total_absent(pre, lo as int, hi as int, s.topic@);
                    }
                    assert(out.minutes@[n] == topic_total(post, lo as int, hi as int, out.topics@[n]@));
                },
            }
        } else {
            assert forall|t: Seq<char>| has_topic(post, lo as int, hi as int, t) implies has_topic(pre, lo as int, hi as int, t) by {
                let j = choose|j: int| 0 <= j < post.len() && in_window(post[j], lo as int, hi as int) && post[j].topic@ == t;
                assert(j != i);
                assert(pre[j] == post[j]);
            }
            assert forall|t: Seq<char>| has_topic(pre, lo as int, hi as int, t) implies has_topic(post, lo as int, hi as int, t) by {
                let j = choose|j: int| 0 <= j < pre.len() && in_window(pre[j], lo as int, hi as int) && pre[j].topic@ == t;
                assert(pre[j] == post[j]);
            }
        }
        i = i + 1;
    }
    assert(ss.take(i as int) =~= ss);
    assert(out@ =~= totals(ss, lo as int, hi as int)) by {
        assert forall|t: Seq<char>| out@.contains_key(t) implies out@[t] == topic_total(ss, lo as int, hi as int, t) by {
            let k = choose|k: int| 0 <= k < out.topics@.len() && out.topics@[k]@ == t;
            assert(out.minutes@[k] == topic_total(ss, lo as int, hi as int, out.topics@[k]@));
        }
        assert forall|t: Seq<char>| out@.contains_key(t) implies has_topic(ss, lo as int, hi as int, t) by {
            let k = choose|k: int| 0 <= k < out.topics@.len() && out.topics@[k]@ == t;
            assert(has_topic(ss, lo as int, hi as int, out.topics@[k]@));
        }
    }
    out
}

/// Per-topic totals of the sessions dated from `from` to `to`, both included.
pub fn summary_between(sessions: &[Session], from: Date, to: Date) -> (r: Summary)
    requires
        abs_total(sessions@) <= i64::MAX,
    ensures
        r.wf(),
        r@ == totals(sessions@, from.days as int, to.days as int),
{
    totals_within(sessions, from.days as i64, to.days as i64)
}

/// Per-topic totals of the sessions dated `date`.
pub fn summary_for_date(sessions: &[Session], date: Date) -> (r: Summary)
    requires
        abs_total(sessions@) <= i64::MAX,
    ensures
        r.wf(),
        r@ == totals(sessions@, date.days as int, date.days as int),
{
    totals_within(sessions, date.days as i64, date.days as i64)
}

/// Per-topic totals of the sessions dated `today`.
pub fn summary_today(sessions: &[Session], today: Date) -> (r: Summary)
    requires
        abs_total(sessions@) <= i64::MAX,
    ensures
        r.wf(),
        r@ == totals(sessions@, today.days as int, today.days as int),
{
    summary_for_date(sessions, today)
}

/// First day number of the seven calendar days that end with `today`.
pub open spec fn week_start(today: Date) -> int {
    today.days - 6
}

/// Per-topic totals of the sessions of the last seven calendar days:
/// `today` and the six days before it.
pub fn summary_week(sessions: &[Session], today: Date) -> (r: Summary)
    requires
        abs_total(sessions@) <= i64::MAX,
    ensures
        r.wf(),
        r@ == totals(sessions@, week_start(today), today.days as int),
{
    totals_within(sessions, today.days_before(6), today.days as i64)
}

/// Where no session lies in the window, the summary is empty.
pub proof fn lemma_no_match_empty(ss: Seq<Session>, lo: int, hi: int)
    requires
        forall|i: int| 0 <= i < ss.len() ==> !in_window(ss[i], lo, hi),
    ensures
        totals(ss, lo, hi) == Map::<Seq<char>, int>::empty(),
{
    assert(totals(ss, lo, hi) =~= Map::<Seq<char>, int>::empty());
}

/// Totals over the sessions `ss` followed by `s`: `s` counts toward its topic
/// exactly when its date lies in the window.
pub proof fn lemma_totals_push(ss: Seq<Session>, s: Session, lo: int, hi: int)
    ensures
        in_window(s, lo, hi) ==> totals(ss.push(s), lo, hi) == totals(ss, lo, hi).insert(
            s.topic@,
            if has_topic(ss, lo, hi, s.topic@) { topic_total(ss, lo, hi, s.topic@) } else { 0 } + s.minutes,
        ),
        !in_window(s, lo, hi) ==> totals(ss.push(s), lo, hi) == totals(ss, lo, hi),
{
    let post = ss.push(s);
    assert(post.drop_last() =~= ss);
    assert forall|t: Seq<char>| has_topic(post, lo, hi, t) <==> has_topic(ss, lo, hi, t) || (in_window(s, lo, hi) && t == s.topic@) by {
        if has_topic(post, lo, hi, t) {
            let j = choose|j: int| 0 <= j < post.len() && in_window(post[j], lo, hi) && post[j].topic@ == t;
            if j < ss.len() {
                assert(ss[j] == post[j]);
            }
        }
        if has_topic(ss, lo, hi, t) {
            let j = choose|j: int| 0 <= j < ss.len() && in_window(ss[j], lo, hi) && ss[j].topic@ == t;
            assert(ss[j] == post[j]);
        }
        if in_window(s, lo, hi) && t == s.topic@ {
            assert(post[ss.len() as int] == s);
        }
    }
    if !has_topic(ss, lo, hi, s.topic@) {
        lemma_topic_total_absent(ss, lo, hi, s.topic@);
    }
    if in_window(s, lo, hi) {
        assert(totals(post, lo, hi) =~= totals(ss, lo, hi).insert(
            s.topic@,
            if has_topic(ss, lo, hi, s.topic@) { topic_total(ss, lo, hi, s.topic@) } else { 0 } + s.minutes,
        ));
    } else {
        assert(totals(post, lo, hi) =~= totals(ss, lo, hi));
    }
}

/// A session dated six days before `today` counts in the week's summary:
/// adding it adds its minutes to its topic.
pub proof fn lemma_week_includes_sixth_day(ss: Seq<Session>, s: Session, today: Date)
    requires
        s.date.days == today.days - 6,
    ensures
        totals(ss.push(s), week_start(today), today.days as int).contains_key(s.topic@),
        totals(ss.push(s), week_start(today), today.days as int)[s.topic@]
            == topic_total(ss, week_start(today), today.days as int, s.topic@) + s.minutes,
{
    let lo = week_start(today);
    let hi = today.days as int;
    lemma_totals_push(ss, s, lo, hi);
    if !has_topic(ss, lo, hi, s.topic@) {
        lemma_topic_total_absent(ss, lo, hi, s.topic@);
    }
}

/// A session dated seven days before `today` does not count in the week's
/// summary: adding it leaves the summary as it was.
pub proof fn lemma_week_excludes_seventh_day(ss: Seq<Session>, s: Session, today: Date)
    requires
        s.date.days == today.days - 7,
    ensures
        totals(ss.push(s), week_start(today), today.days as int)
            == totals(ss, week_start(today), today.days as int),
{
    lemma_totals_push(ss, s, week_start(today), today.days as int);
}

/// Sum of the minutes of `rows`.
pub open spec fn sum_of(rows: Seq<(String, i64)>) -> int
    decreases rows.len(),
{
    if rows.len() == 0 {
        0
    } else {
        sum_of(rows.drop_last()) + rows.last().1
    }
}

/// Sum of the minutes of `rows`, or `None` where it does not fit in an `i64`.
pub fn total_of(rows: &[(String, i64)]) -> (r: Option<i64>)
    ensures
        r == (if i64::MIN <= sum_of(rows@) <= i64::MAX {
            Some(sum_of(rows@) as i64)
        } else {
            None::<i64>
        }),
{
    let mut acc: i128 = 0;
    let mut i: usize = 0;
    while i < rows.len()
        invariant
            0 <= i <= rows@.len(),
            acc == sum_of(rows@.take(i as int)),
            -(i as int) * 0x8000_0000_0000_0000 <= acc <= (i as int) * 0x8000_0000_0000_0000,
        decreases rows@.len() - i,
    {
        assert(rows@.take(i + 1).drop_last() =~= rows@.take(i as int));
        acc = acc + rows[i].1 as i128;
        i = i + 1;
    }
    assert(rows@.take(i as int) =~= rows@);
    if i64::MIN as i128 <= acc && acc <= i64::MAX as i128 {
        Some(acc as i64)
    } else {
        None
    }
}

impl Summary {
    /// The topics with their totals, largest total first; topics of equal
    /// totals keep the order in which they were first met.
    #[verifier::rlimit(60)]
    pub fn ranked(&self) -> (r: Vec<(String, i64)>)
        requires
            self.wf(),
        ensures
            r@.len() == self@.dom().len(),
            forall|a: int, b: int| 0 <= a < b < r@.len() ==> r@[a].1 >= r@[b].1,
            forall|a: int|
                0 <= a < r@.len() ==> self@.contains_key(#[trigger] r@[a].0@) && self@[r@[a].0@]
                    == r@[a].1,
            forall|t: Seq<char>|
                self@.contains_key(t) ==> exists|a: int| 0 <= a < r@.len() && #[trigger] r@[a].0@ == t,
    {
        proof {
            self.lemma_size();
        }
        let mut out: Vec<(String, i64)> = Vec::new();
        let n = self.topics.len();
        let mut i: usize = 0;
        while i < n
            invariant
                self.wf(),
                n == self.topics@.len(),
                0 <= i <= n,
                out@.len() == i,
                forall|a: int, b: int| 0 <= a < b < out@.len() ==> out@[a].1 >= out@[b].1,
                forall|a: int|
                    0 <= a < out@.len() ==> exists|k: int|
                        0 <= k < i && #[trigger] out@[a].0 == self.topics@[k] && out@[a].1
                            == self.minutes@[k],
                forall|k: int|
                    0 <= k < i ==> exists|a: int|
                        0 <= a < out@.len() && out@[a].0 == #[trigger] self.topics@[k] && out@[a].1
                            == self.minutes@[k],
            decreases n - i,
        {
            let m = self.minutes[i];
            let mut p: usize = 0;
            while p < out.len() && out[p].1 >= m
                invariant
                    0 <= p <= out@.len(),
                    forall|a: int| 0 <= a < p ==> out@[a].1 >= m,
                decreases out@.len() - p,
            {
                p = p + 1;
            }
            let ghost before = out@;
            out.insert(p, (self.topics[i].clone(), m));
            assert forall|a: int, b: int| 0 <= a < b < out@.len() implies out@[a].1 >= out@[b].1 by {
                if a < p && b > p {
                    assert(out@[b] == before[b - 1]);
                } else if a > p {
                    assert(out@[a] == before[a - 1] && out@[b] == before[b - 1]);
                } else if a < p && b == p {
                } else if a == p {
                    assert(out@[b] == before[b - 1]);
                    assert(before[p as int].1 < m);
                } else {
                    assert(out@[a] == before[a] && out@[b] == before[b]);
                }
            }
            assert forall|a: int| 0 <= a < out@.len() implies exists|k: int|
                0 <= k < i + 1 && #[trigger] out@[a].0 == self.topics@[k] && out@[a].1
                    == self.minutes@[k] by {
                if a == p {
                    assert(out@[a].0 == self.topics@[i as int]);
                } else if a < p {
                    assert(out@[a] == before[a]);
                } else {
                    assert(out@[a] == before[a - 1]);
                }
            }
            assert forall|k: int| 0 <= k < i + 1 implies exists|a: int|
                0 <= a < out@.len() && out@[a].0 == #[trigger] self.topics@[k] && out@[a].1
                    == self.minutes@[k] by {
                if k == i {
                    assert(out@[p as int].0 == self.topics@[k]);
                } else {
                    let a = choose|a: int|
                        0 <= a < before.len() && before[a].0 == self.topics@[k] && before[a].1
                            == self.minutes@[k];
                    if a < p {
                        assert(out@[a] == before[a]);
                    } else {
                        assert(out@[a + 1] == before[a]);
                    }
                }
            }
            i = i + 1;
        }
        assert forall|a: int| 0 <= a < out@.len() implies self@.contains_key(#[trigger] out@[a].0@)
            && self@[out@[a].0@] == out@[a].1 by {
            let k = choose|k: int|
                0 <= k < n && #[trigger] out@[a].0 == self.topics@[k] && out@[a].1 == self.minutes@[k];
            assert(has_key(self.topics@, out@[a].0@));
        }
        assert forall|t: Seq<char>| self@.contains_key(t) implies exists|a: int|
            0 <= a < out@.len() && #[trigger] out@[a].0@ == t by {
            let k = choose|k: int| 0 <= k < self.topics@.len() && self.topics@[k]@ == t;
            let a = choose|a: int|
                0 <= a < out@.len() && out@[a].0 == #[trigger] self.topics@[k] && out@[a].1
                    == self.minutes@[k];
            assert(out@[a].0@ == t);
        }
        out
    }
}

} // verus!
