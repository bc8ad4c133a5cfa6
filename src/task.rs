//! Tasks: creation against the calendar, dependencies, and ordering.
use vstd::prelude::*;
use crate::date::{lemma_date_round_trip, parse_date, parse_spec, Date, DateError};

verus! {

/// A named unit of work with an optional due date (kept as `YYYY-MM-DD`
/// text) and the sub-tasks it owns.
pub struct Task {
    pub name: String,
    pub due: Option<String>,
    pub dependencies: Vec<Task>,
}

/// The number of direct sub-tasks: the key tasks are ordered by.
pub open spec fn dep_count(t: Task) -> int {
    t.dependencies@.len() as int
}

/// The due date's text, if any.
pub open spec fn due_text(t: Task) -> Option<Seq<char>> {
    match t.due {
        Some(s) => Some(s@),
        None => None,
    }
}

/// `t` is a task just made: this name and due text, no dependencies.
pub open spec fn is_fresh(t: Task, name: Seq<char>, due: Option<Seq<char>>) -> bool {
    &&& t.name@ == name
    &&& due_text(t) == due
    &&& t.dependencies@.len() == 0
}

/// What creating a task with this name and due date, on `today`, gives.
pub open spec fn created(t: Result<Task, DateError>, name: Seq<char>, due: Option<Date>, today: Date) -> bool {
    match due {
        None => t is Ok && is_fresh(t->Ok_0, name, None),
        Some(d) => if today.precedes(d) {
            t is Ok && is_fresh(t->Ok_0, name, Some(d.iso_text()))
        } else {
            t == Err::<Task, DateError>(DateError::InvalidDate)
        },
    }
}

/// Where `x`, with key `k`, goes in `s`: just after the last element whose key
/// is not above `k`, found by scanning from the back.
pub open spec fn insert_point(s: Seq<Task>, k: int) -> int
    decreases s.len(),
{
    if s.len() == 0 {
        0
    } else if dep_count(s.last()) > k {
        insert_point(s.drop_last(), k)
    } else {
        s.len() as int
    }
}

/// `s` with `x` placed after every element whose key is not above its own.
pub open spec fn insert_by_count(s: Seq<Task>, x: Task) -> Seq<Task> {
    s.insert(insert_point(s, dep_count(x)), x)
}

/// The stable ascending order of `s` by dependency count.
pub open spec fn sorted_by_count(s: Seq<Task>) -> Seq<Task>
    decreases s.len(),
{
    if s.len() == 0 {
        s
    } else {
        insert_by_count(sorted_by_count(s.drop_last()), s.last())
    }
}

/// Dependency counts never go down along `s`.
pub open spec fn is_ordered(s: Seq<Task>) -> bool {
    forall|i: int, j: int| 0 <= i < j < s.len() ==> dep_count(s[i]) <= dep_count(s[j])
}

/// Holds of a task with exactly `k` dependencies.
pub open spec fn has_count(k: int) -> spec_fn(Task) -> bool {
    |t: Task| dep_count(t) == k
}

proof fn lemma_insert_point(s: Seq<Task>, k: int)
    ensures
        0 <= insert_point(s, k) <= s.len(),
        forall|i: int| insert_point(s, k) <= i < s.len() ==> dep_count(#[trigger] s[i]) > k,
        insert_point(s, k) > 0 ==> dep_count(s[insert_point(s, k) - 1]) <= k,
    decreases s.len(),
{
    if s.len() > 0 && dep_count(s.last()) > k {
        lemma_insert_point(s.drop_last(), k);
        assert forall|i: int| insert_point(s, k) <= i < s.len() implies dep_count(#[trigger] s[i]) > k by {
            if i < s.len() - 1 {
                assert(s[i] == s.drop_last()[i]);
            }
        }
    }
}

/// Sorts the tasks, stably, by ascending number of dependencies.
pub fn sort_tasks(tasks: &mut Vec<Task>)
    ensures
        final(tasks)@ == sorted_by_count(old(tasks)@),
        is_ordered(final(tasks)@),
{
    proof {
        lemma_sort_ordered(tasks@);
    }
    let ghost orig = tasks@;
    let n = tasks.len();
    let mut i: usize = 0;
    proof {
        assert(orig.take(0) =~= Seq::<Task>::empty());
        assert(tasks@.take(0) =~= Seq::<Task>::empty());
        assert(tasks@.skip(0) =~= orig.skip(0));
    }
    while i < n
        invariant
            0 <= i <= n,
            n == orig.len(),
            tasks@.len() == n,
            tasks@.take(i as int) == sorted_by_count(orig.take(i as int)),
            tasks@.skip(i as int) == orig.skip(i as int),
        decreases n - i,
    {
        let ghost before = tasks@;
        let ghost prefix = before.take(i as int);
        assert(before[i as int] == orig.skip(i as int)[0]);
        let x = tasks.remove(i);
        assert(x == orig[i as int]);
        let ghost k = dep_count(x);
        assert(tasks@.take(i as int) =~= prefix);
        assert(prefix.take(i as int) =~= prefix);
        let ghost mid = tasks@;
        let mut j: usize = i;
        while j > 0 && tasks[j - 1].dependencies.len() > x.dependencies.len()
            invariant
                j <= i < n,
                tasks@.len() == n - 1,
                tasks@.take(i as int) == prefix,
                k == dep_count(x),
                insert_point(prefix, k) == insert_point(prefix.take(j as int), k),
            decreases j,
        {
            proof {
                assert(prefix.take(j as int).drop_last() =~= prefix.take(j - 1));
                assert(prefix.take(j as int).last() == tasks@[j - 1]);
            }
            j = j - 1;
        }
        proof {
            assert(insert_point(prefix, k) == j) by {
                if j == 0 {
                    assert(prefix.take(0).len() == 0);
                } else {
                    assert(prefix.take(j as int).last() == tasks@[j - 1]);
                }
            }
        }
        tasks.insert(j, x);
        proof {
            assert(orig.take(i + 1).drop_last() =~= orig.take(i as int));
            assert(orig.take(i + 1).last() == x);
            assert(tasks@.take(i + 1) =~= prefix.insert(j as int, x));
            assert forall|m: int| i + 1 <= m < n implies tasks@[m] == orig[m] by {
                assert(tasks@[m] == mid[m - 1]);
                assert(mid[m - 1] == before[m]);
                assert(before[m] == before.skip(i as int)[m - i]);
                assert(orig[m] == orig.skip(i as int)[m - i]);
            }
            assert(tasks@.skip(i + 1) =~= orig.skip(i + 1));
        }
        i = i + 1;
    }
    proof {
        assert(tasks@ =~= tasks@.take(n as int));
        assert(orig =~= orig.take(n as int));
    }
}

proof fn lemma_sorted_len(s: Seq<Task>)
    ensures
        sorted_by_count(s).len() == s.len(),
    decreases s.len(),
{
    if s.len() > 0 {
        lemma_sorted_len(s.drop_last());
        lemma_insert_point(sorted_by_count(s.drop_last()), dep_count(s.last()));
    }
}

proof fn lemma_insert_keeps_order(t: Seq<Task>, x: Task)
    requires
        is_ordered(t),
    ensures
        is_ordered(insert_by_count(t, x)),
{
    let k = dep_count(x);
    let p = insert_point(t, k);
    lemma_insert_point(t, k);
    let r = insert_by_count(t, x);
    assert forall|i: int, j: int| 0 <= i < j < r.len() implies dep_count(r[i]) <= dep_count(r[j]) by {
        if i < p {
            assert(dep_count(t[i]) <= dep_count(t[p - 1]) || i == p - 1);
        }
    }
}

/// Sorting by dependency count yields a sequence whose counts never go down,
/// and of the same length.
pub proof fn lemma_sort_ordered(s: Seq<Task>)
    ensures
        is_ordered(sorted_by_count(s)),
        sorted_by_count(s).len() == s.len(),
    decreases s.len(),
{
    lemma_sorted_len(s);
    if s.len() > 0 {
        lemma_sort_ordered(s.drop_last());
        lemma_insert_keeps_order(sorted_by_count(s.drop_last()), s.last());
    }
}

/// Sorting a sequence that is already in order leaves it as it is; so sorting
/// twice is the same as sorting once.
pub proof fn lemma_sort_idempotent(s: Seq<Task>)
    ensures
        is_ordered(s) ==> sorted_by_count(s) == s,
        sorted_by_count(sorted_by_count(s)) == sorted_by_count(s),
{
    lemma_sort_of_ordered(s);
    lemma_sort_ordered(s);
    lemma_sort_of_ordered(sorted_by_count(s));
}

proof fn lemma_sort_of_ordered(s: Seq<Task>)
    ensures
        is_ordered(s) ==> sorted_by_count(s) == s,
    decreases s.len(),
{
    if s.len() > 0 && is_ordered(s) {
        let t = s.drop_last();
        assert(is_ordered(t));
        lemma_sort_of_ordered(t);
        let k = dep_count(s.last());
        if t.len() > 0 {
            assert(dep_count(t.last()) <= k);
        }
        assert(insert_point(t, k) == t.len());
        assert(t.insert(t.len() as int, s.last()) =~= s);
    }
}

proof fn lemma_filter_none(u: Seq<Task>, pred: spec_fn(Task) -> bool)
    requires
        forall|i: int| 0 <= i < u.len() ==> !pred(#[trigger] u[i]),
    ensures
        u.filter(pred) == Seq::<Task>::empty(),
    decreases u.len(),
{
    broadcast use Seq::lemma_filter_push;
    if u.len() == 0 {
        assert(u.filter(pred) =~= Seq::<Task>::empty()) by {
            reveal(Seq::filter);
        }
    } else {
        let v = u.drop_last();
        lemma_filter_none(v, pred);
        assert(v.push(u.last()) =~= u);
        assert(!pred(u[u.len() - 1]));
    }
}

/// Sorting is stable: for every count `k`, the tasks with exactly `k`
/// dependencies come out in the same relative order as they went in.
pub proof fn lemma_sort_stable(s: Seq<Task>, k: int)
    ensures
        sorted_by_count(s).filter(has_count(k)) == s.filter(has_count(k)),
    decreases s.len(),
{
    broadcast use Seq::lemma_filter_push;
    if s.len() > 0 {
        let t = sorted_by_count(s.drop_last());
        let x = s.last();
        let kx = dep_count(x);
        let p = insert_point(t, kx);
        let pred = has_count(k);
        lemma_sort_stable(s.drop_last(), k);
        lemma_insert_point(t, kx);
        let a = t.take(p);
        let b = t.skip(p);
        assert(t.insert(p, x) =~= a.push(x) + b);
        assert(t =~= a + b);
        Seq::filter_distributes_over_add(a.push(x), b, pred);
        Seq::filter_distributes_over_add(a, b, pred);
        assert(s.drop_last().push(x) =~= s);
        if kx == k {
            assert forall|i: int| 0 <= i < b.len() implies !pred(#[trigger] b[i]) by {
                assert(b[i] == t[p + i]);
            }
            lemma_filter_none(b, pred);
            assert(a.push(x).filter(pred) + b.filter(pred) =~= a.push(x).filter(pred));
        }
    }
}

/// A due date strictly after today is accepted, and the task keeps it as text
/// that reads back as the same date.
pub proof fn lemma_create_future(name: Seq<char>, d: Date, today: Date)
    requires
        d.wf(),
        0 <= d.year <= 9999,
        today.precedes(d),
    ensures
        forall|r: Result<Task, DateError>| #[trigger] created(r, name, Some(d), today) ==> {
            &&& r is Ok
            &&& due_text(r->Ok_0) == Some(d.iso_text())
            &&& parse_spec(d.iso_text()) == Ok::<Date, DateError>(d)
        },
{
    lemma_date_round_trip(d);
}

/// A due date on or before today is refused as an invalid date.
pub proof fn lemma_create_not_future(name: Seq<char>, d: Date, today: Date)
    requires
        !today.precedes(d),
    ensures
        forall|r: Result<Task, DateError>| #[trigger] created(r, name, Some(d), today)
            ==> r == Err::<Task, DateError>(DateError::InvalidDate),
{
}

impl Task {
    /// The due date is strictly after the local calendar date now.
    pub fn positive_date_delta(date: Date) -> (r: bool)
        ensures
            exists|today: Date| today.wf() && r == today.precedes(date),
    {
        let today = Date::today();
        today.is_before(&date)
    }

    /// Makes a task with no dependencies, judging the due date against `today`:
    /// a due date that is not strictly later is refused.
    pub fn create(name: String, due: Option<Date>, today: Date) -> (r: Result<Task, DateError>)
        ensures
            created(r, name@, due, today),
    {
        match due {
            None => Ok(Task { name, due: None, dependencies: Vec::new() }),
            Some(d) => {
                if today.is_before(&d) {
                    Ok(Task { name, due: Some(d.to_iso_string()), dependencies: Vec::new() })
                } else {
                    Err(DateError::InvalidDate)
                }
            },
        }
    }

    /// Makes a task with no dependencies, judging the due date against the
    /// local clock.
    pub fn new(name: String, due: Option<Date>) -> (r: Result<Task, DateError>)
        ensures
            exists|today: Date| today.wf() && created(r, name@, due, today),
    {
        let today = Date::today();
        Task::create(name, due, today)
    }

    /// Makes a task from its name and the due date as typed, `YYYY-MM-DD`:
    /// a bad text is refused before any task is made.
    pub fn from_input(name: String, due: Option<&str>, today: Date) -> (r: Result<Task, DateError>)
        ensures
            match due {
                None => created(r, name@, None, today),
                Some(s) => match parse_spec(s@) {
                    Err(e) => r == Err::<Task, DateError>(e),
                    Ok(d) => created(r, name@, Some(d), today),
                },
            },
    {
        match due {
            None => Task::create(name, None, today),
            Some(s) => match parse_date(s) {
                Err(e) => Err(e),
                Ok(d) => Task::create(name, Some(d), today),
            },
        }
    }

    /// Puts `task` after the existing dependencies.
    pub fn _add_subtask(&mut self, task: Task)
        ensures
            final(self).dependencies@ == old(self).dependencies@.push(task),
            final(self).name == old(self).name,
            final(self).due == old(self).due,
    {
        self.dependencies.push(task);
    }
}

} // verus!
