//! The in-memory task record and the session operations on a task
//! collection.
//!
//! A task's priority is an ordered three-step enumeration stored as an
//! integer code; decoding is deliberately lenient and falls back to `Low`
//! for any code outside the three known ones.

use vstd::prelude::*;
use crate::datetime::DateTime;
use crate::datetime::{datetime_le, datetime_lt, lemma_datetime_le_total, lemma_datetime_le_trans};

verus! {

broadcast use vstd::seq_lib::group_to_multiset_ensures;

/// Task priority, ordered `Low < Medium < High`.
#[derive(Clone, Copy, Debug, PartialEq, Eq, Structural)]
pub enum Priority {
    Low,
    Medium,
    High,
}

/// The stored integer code of a priority: `Low` 0, `Medium` 1, `High` 2.
/// The codes order exactly as the priorities do.
pub open spec fn priority_code(p: Priority) -> int {
    match p {
        Priority::Low => 0,
        Priority::Medium => 1,
        Priority::High => 2,
    }
}

/// The priority a stored code decodes to: any code outside {0, 1, 2}
/// falls back to `Low` (lenient decoding, not an error).
pub open spec fn priority_of_code(c: int) -> Priority {
    if c == 1 {
        Priority::Medium
    } else if c == 2 {
        Priority::High
    } else {
        Priority::Low
    }
}

/// Encode a priority as its stored integer code.
pub fn encode_priority(p: Priority) -> (r: i64)
    ensures
        r as int == priority_code(p),
{
    match p {
        Priority::Low => 0,
        Priority::Medium => 1,
        Priority::High => 2,
    }
}

/// Decode a stored integer code, falling back to `Low` for an
/// unrecognized code.
pub fn decode_priority(c: i64) -> (r: Priority)
    ensures
        r == priority_of_code(c as int),
{
    if c == 1 {
        Priority::Medium
    } else if c == 2 {
        Priority::High
    } else {
        Priority::Low
    }
}

/// Every priority round-trips through its integer code; the lenient
/// fallback never touches a code the encoder produces.
pub proof fn lemma_priority_roundtrip(p: Priority)
    ensures
        priority_of_code(priority_code(p)) == p,
{
}

impl Priority {
    /// The display name of the priority.
    pub fn label(&self) -> (r: &'static str)
        ensures
            r@ == spec_label(*self),
    {
        let s: &'static str = match self {
            Priority::Low => "Low",
            Priority::Medium => "Medium",
            Priority::High => "High",
        };
        proof {
            reveal_strlit("Low");
            reveal_strlit("Medium");
            reveal_strlit("High");
            assert("Low"@ =~= seq!['L', 'o', 'w']);
            assert("Medium"@ =~= seq!['M', 'e', 'd', 'i', 'u', 'm']);
            assert("High"@ =~= seq!['H', 'i', 'g', 'h']);
        }
        s
    }
}

/// The display name of a priority, as a character sequence.
pub open spec fn spec_label(p: Priority) -> Seq<char> {
    match p {
        Priority::Low => seq!['L', 'o', 'w'],
        Priority::Medium => seq!['M', 'e', 'd', 'i', 'u', 'm'],
        Priority::High => seq!['H', 'i', 'g', 'h'],
    }
}

/// An in-memory task record. `status` is `false` while the task is
/// incomplete, `true` once completed.
#[derive(Debug)]
pub struct Task {
    pub title: String,
    pub description: String,
    pub due_date: DateTime,
    pub priority: Priority,
    pub status: bool,
}

/// The mathematical value of a task: its text fields as character
/// sequences, the rest as plain values.
#[verifier::ext_equal]
pub ghost struct TaskModel {
    pub title: Seq<char>,
    pub description: Seq<char>,
    pub due_date: DateTime,
    pub priority: Priority,
    pub status: bool,
}

impl TaskModel {
    /// A task is well-formed when its due date is a valid calendar date
    /// in years 0 through 9999, so that it has a timestamp text.
    pub open spec fn wf(self) -> bool {
        self.due_date.wf()
    }
}

impl View for Task {
    type V = TaskModel;

    open spec fn view(&self) -> TaskModel {
        TaskModel {
            title: self.title@,
            description: self.description@,
            due_date: self.due_date,
            priority: self.priority,
            status: self.status,
        }
    }
}

impl Task {
    /// A new, not yet completed task. Titles are non-empty: they serve as
    /// the collection's lookup key.
    pub fn new(title: &str, description: &str, due_date: DateTime, priority: Priority) -> (r: Task)
        requires
            title@.len() > 0,
            due_date.wf(),
        ensures
            r@ == (TaskModel {
                title: title@,
                description: description@,
                due_date,
                priority,
                status: false,
            }),
            r@.wf(),
    {
        Task {
            title: title.to_owned(),
            description: description.to_owned(),
            due_date,
            priority,
            status: false,
        }
    }
}

impl PartialEq for Task {
    /// Structural equality over all five fields.
    fn eq(&self, other: &Task) -> (r: bool) {
        self.title == other.title && self.description == other.description && self.due_date
            == other.due_date && self.priority == other.priority && self.status == other.status
    }
}

impl vstd::std_specs::cmp::PartialEqSpecImpl for Task {
    open spec fn obeys_eq_spec() -> bool {
        true
    }

    open spec fn eq_spec(&self, other: &Task) -> bool {
        self@ =~= other@
    }
}

/// Append a task to the in-memory collection.
pub fn add_task(tasks: &mut Vec<Task>, task: Task)
    ensures
        final(tasks)@ == old(tasks)@.push(task),
{
    tasks.push(task);
}

/// The first index whose task bears the given title, if any.
pub fn find_task(tasks: &Vec<Task>, title: &str) -> (r: Option<usize>)
    ensures
        match r {
            Some(i) => {
                &&& i < tasks@.len()
                &&& tasks@[i as int].title@ == title@
                &&& forall|j: int| 0 <= j < i ==> tasks@[j].title@ != title@
            },
            None => forall|j: int| 0 <= j < tasks@.len() ==> tasks@[j].title@ != title@,
        },
{
    let key = title.to_owned();
    let mut i: usize = 0;
    while i < tasks.len()
        invariant
            0 <= i <= tasks@.len(),
            key@ == title@,
            forall|j: int| 0 <= j < i ==> tasks@[j].title@ != title@,
        decreases tasks@.len() - i,
    {
        if tasks[i].title == key {
            return Some(i);
        }
        i += 1;
    }
    None
}

/// Remove every task bearing the given title, keeping the order of the
/// rest.
pub fn remove_task(tasks: &mut Vec<Task>, title: &str)
    ensures
        final(tasks)@ == old(tasks)@.filter(|t: Task| t.title@ != title@),
{
    let key = title.to_owned();
    let ghost orig = tasks@;
    let mut kept: Vec<Task> = Vec::new();
    proof {
        reveal_with_fuel(Seq::<_>::filter, 2);
    }
    while tasks.len() > 0
        invariant
            key@ == title@,
            tasks@.len() <= orig.len(),
            tasks@ == orig.subrange(orig.len() - tasks@.len(), orig.len() as int),
            kept@ == orig.take(orig.len() - tasks@.len()).filter(|t: Task| t.title@ != title@),
        decreases tasks@.len(),
    {
        let ghost k = orig.len() - tasks@.len();
        proof {
            reveal_with_fuel(Seq::<_>::filter, 2);
            assert(orig.take(k + 1).drop_last() =~= orig.take(k));
            assert(orig.take(k + 1).last() == orig[k]);
            assert(tasks@[0] == orig[k]);
        }
        let t = tasks.remove(0);
        if t.title == key {
        } else {
            kept.push(t);
        }
        proof {
            assert(tasks@ =~= orig.subrange(orig.len() - tasks@.len(), orig.len() as int));
        }
    }
    proof {
        reveal_with_fuel(Seq::<_>::filter, 2);
        assert(orig.take(orig.len() as int) =~= orig);
    }
    *tasks = kept;
}

/// Clone a task field by field; the clone carries the same value.
pub fn clone_task(t: &Task) -> (r: Task)
    ensures
        r@ == t@,
{
    Task {
        title: t.title.clone(),
        description: t.description.clone(),
        due_date: t.due_date,
        priority: t.priority,
        status: t.status,
    }
}

/// Mark the first task bearing the given title complete, returning its
/// index; the collection is unchanged when no task bears the title.
pub fn complete_task(tasks: &mut Vec<Task>, title: &str) -> (r: Option<usize>)
    ensures
        match r {
            Some(i) => {
                &&& i < old(tasks)@.len()
                &&& old(tasks)@[i as int].title@ == title@
                &&& forall|j: int| 0 <= j < i ==> old(tasks)@[j].title@ != title@
                &&& final(tasks)@ == old(tasks)@.update(
                    i as int,
                    (Task { status: true, ..old(tasks)@[i as int] }),
                )
            },
            None => {
                &&& final(tasks)@ == old(tasks)@
                &&& forall|j: int| 0 <= j < old(tasks)@.len() ==> old(tasks)@[j].title@ != title@
            },
        },
{
    match find_task(tasks, title) {
        Some(i) => {
            let mut t = tasks.remove(i);
            t.status = true;
            tasks.insert(i, t);
            proof {
                assert(tasks@ =~= old(tasks)@.update(
                    i as int,
                    (Task { status: true, ..old(tasks)@[i as int] }),
                ));
            }
            Some(i)
        },
        None => None,
    }
}

/// The collection is in chronological order of due dates.
pub open spec fn sorted_by_due(s: Seq<Task>) -> bool {
    forall|x: int, y: int|
        #![trigger s[x], s[y]]
        0 <= x < y < s.len() ==> datetime_le(s[x].due_date, s[y].due_date)
}

/// The collection is in ascending order of priority codes.
pub open spec fn sorted_by_priority(s: Seq<Task>) -> bool {
    forall|x: int, y: int|
        #![trigger s[x], s[y]]
        0 <= x < y < s.len() ==> priority_code(s[x].priority) <= priority_code(s[y].priority)
}

/// The tasks of a collection that bear the given due date, in their
/// original relative order.
pub open spec fn due_filter(s: Seq<Task>, d: DateTime) -> Seq<Task> {
    s.filter(|t: Task| t.due_date == d)
}

/// The tasks of a collection that bear the given priority, in their
/// original relative order.
pub open spec fn priority_filter(s: Seq<Task>, p: Priority) -> Seq<Task> {
    s.filter(|t: Task| t.priority == p)
}

/// A sequence none of whose elements satisfies the predicate filters to
/// the empty sequence.
proof fn lemma_filter_all_excluded(s: Seq<Task>, pred: spec_fn(Task) -> bool)
    requires
        forall|i: int| 0 <= i < s.len() ==> !pred(#[trigger] s[i]),
    ensures
        s.filter(pred) == Seq::<Task>::empty(),
    decreases s.len(),
{
    reveal_with_fuel(Seq::<_>::filter, 2);
    if s.len() > 0 {
        lemma_filter_all_excluded(s.drop_last(), pred);
    }
}

/// Filtering commutes with appending one element.
proof fn lemma_filter_push(s: Seq<Task>, t: Task, pred: spec_fn(Task) -> bool)
    ensures
        s.push(t).filter(pred) == (if pred(t) {
            s.filter(pred).push(t)
        } else {
            s.filter(pred)
        }),
{
    reveal_with_fuel(Seq::<_>::filter, 2);
    assert(s.push(t).drop_last() =~= s);
    assert(s.push(t).last() == t);
}

fn min_due_index(tasks: &Vec<Task>) -> (m: usize)
    requires
        tasks@.len() > 0,
    ensures
        m < tasks@.len(),
        forall|k: int| 0 <= k < tasks@.len() ==> datetime_le(
            tasks@[m as int].due_date,
            (#[trigger] tasks@[k]).due_date,
        ),
        forall|k: int| 0 <= k < m ==> !datetime_le(
            (#[trigger] tasks@[k]).due_date,
            tasks@[m as int].due_date,
        ),
{
    let mut m: usize = 0;
    let mut j: usize = 1;
    while j < tasks.len()
        invariant
            0 < j <= tasks@.len(),
            m < j,
            forall|k: int| 0 <= k < j ==> datetime_le(
                tasks@[m as int].due_date,
                (#[trigger] tasks@[k]).due_date,
            ),
            forall|k: int| 0 <= k < m ==> !datetime_le(
                (#[trigger] tasks@[k]).due_date,
                tasks@[m as int].due_date,
            ),
        decreases tasks@.len() - j,
    {
        if datetime_lt(&tasks[j].due_date, &tasks[m].due_date) {
            proof {
                assert forall|k: int| 0 <= k < j + 1 implies datetime_le(
                    tasks@[j as int].due_date,
                    (#[trigger] tasks@[k]).due_date,
                ) by {
                    lemma_datetime_le_total(tasks@[j as int].due_date, tasks@[m as int].due_date);
                    if k < j {
                        lemma_datetime_le_trans(
                            tasks@[j as int].due_date,
                            tasks@[m as int].due_date,
                            tasks@[k].due_date,
                        );
                    }
                }
                assert forall|k: int| 0 <= k < j implies !datetime_le(
                    (#[trigger] tasks@[k]).due_date,
                    tasks@[j as int].due_date,
                ) by {
                    lemma_datetime_le_total(tasks@[j as int].due_date, tasks@[m as int].due_date);
                    if datetime_le(tasks@[k].due_date, tasks@[j as int].due_date) {
                        if k < m {
                            lemma_datetime_le_trans(
                                tasks@[k].due_date,
                                tasks@[j as int].due_date,
                                tasks@[m as int].due_date,
                            );
                        } else {
                            lemma_datetime_le_trans(
                                tasks@[m as int].due_date,
                                tasks@[k].due_date,
                                tasks@[j as int].due_date,
                            );
                        }
                    }
                }
            }
            m = j;
        }
        j += 1;
    }
    m
}

/// Sort the collection by due date, earliest first. The sort is stable:
/// tasks with equal due dates keep their relative order (for every date,
/// the subsequence bearing it is unchanged), and the collection holds
/// exactly the same tasks afterwards.
pub fn sort_tasks_by_due_date(tasks: &mut Vec<Task>)
    ensures
        final(tasks)@.len() == old(tasks)@.len(),
        final(tasks)@.to_multiset() == old(tasks)@.to_multiset(),
        sorted_by_due(final(tasks)@),
        forall|d: DateTime| #[trigger] due_filter(final(tasks)@, d) == due_filter(old(tasks)@, d),
{
    let ghost orig = tasks@;
    let mut out: Vec<Task> = Vec::new();
    proof {
        assert forall|d: DateTime| #[trigger] due_filter(out@, d) + due_filter(tasks@, d)
            == due_filter(orig, d) by {
            reveal_with_fuel(Seq::<_>::filter, 2);
            assert(due_filter(out@, d) =~= Seq::<Task>::empty());
            assert(due_filter(out@, d) + due_filter(orig, d) =~= due_filter(orig, d));
        }
    }
    while tasks.len() > 0
        invariant
            out@.len() + tasks@.len() == orig.len(),
            out@.to_multiset().add(tasks@.to_multiset()) == orig.to_multiset(),
            sorted_by_due(out@),
            forall|x: int, y: int|
                #![trigger out@[x], tasks@[y]]
                0 <= x < out@.len() && 0 <= y < tasks@.len() ==> datetime_le(
                    out@[x].due_date,
                    tasks@[y].due_date,
                ),
            forall|d: DateTime| #[trigger] due_filter(out@, d) + due_filter(tasks@, d)
                == due_filter(orig, d),
        decreases tasks@.len(),
    {
        let m = min_due_index(tasks);
        let ghost pre = tasks@;
        let ghost pre_out = out@;
        let t = tasks.remove(m);
        out.push(t);
        proof {
            assert(pre.contains(pre[m as int]));
            assert(pre.to_multiset().count(pre[m as int]) > 0);
            assert(tasks@ == pre.remove(m as int));
            assert(tasks@.to_multiset() =~= pre.to_multiset().remove(pre[m as int]));
            assert(out@.to_multiset() =~= pre_out.to_multiset().insert(pre[m as int]));
            assert(out@.to_multiset().add(tasks@.to_multiset()) =~= orig.to_multiset());
            assert forall|x: int, y: int|
                #![trigger out@[x], tasks@[y]]
                0 <= x < out@.len() && 0 <= y < tasks@.len() implies datetime_le(
                out@[x].due_date,
                tasks@[y].due_date,
            ) by {
                assert(tasks@[y] == if y < m { pre[y] } else { pre[y + 1] });
            }
            assert forall|d: DateTime| #[trigger] due_filter(out@, d) + due_filter(tasks@, d)
                == due_filter(orig, d) by {
                let pred = |t: Task| t.due_date == d;
                let front = pre.take(m as int);
                let back = pre.skip(m as int + 1);
                let t0 = pre[m as int];
                assert(due_filter(pre_out, d) + due_filter(pre, d) == due_filter(orig, d));
                assert(pre =~= front + seq![t0] + back);
                assert(tasks@ =~= front + back);
                Seq::filter_distributes_over_add(front + seq![t0], back, pred);
                Seq::filter_distributes_over_add(front, seq![t0], pred);
                Seq::filter_distributes_over_add(front, back, pred);
                reveal_with_fuel(Seq::<_>::filter, 2);
                assert(seq![t0].drop_last() =~= Seq::<Task>::empty());
                lemma_filter_push(pre_out, t0, pred);
                if pred(t0) {
                    // every task before the first minimum is strictly
                    // later, so none of them bears the minimal date
                    assert forall|i: int| 0 <= i < front.len() implies !pred(
                        #[trigger] front[i],
                    ) by {
                        assert(front[i] == pre[i]);
                    }
                    lemma_filter_all_excluded(front, pred);
                }
                assert(due_filter(out@, d) + due_filter(tasks@, d) =~= due_filter(orig, d));
            }
        }
    }
    proof {
        assert(out@.to_multiset().add(tasks@.to_multiset()) =~= out@.to_multiset());
        assert forall|d: DateTime| #[trigger] due_filter(out@, d) == due_filter(orig, d) by {
            assert(due_filter(out@, d) + due_filter(tasks@, d) == due_filter(orig, d));
            reveal_with_fuel(Seq::<_>::filter, 2);
            assert(due_filter(tasks@, d) =~= Seq::<Task>::empty());
            assert(due_filter(out@, d) + due_filter(tasks@, d) =~= due_filter(out@, d));
        }
    }
    *tasks = out;
}

fn min_priority_index(tasks: &Vec<Task>) -> (m: usize)
    requires
        tasks@.len() > 0,
    ensures
        m < tasks@.len(),
        forall|k: int| 0 <= k < tasks@.len() ==> priority_code(tasks@[m as int].priority)
            <= priority_code((#[trigger] tasks@[k]).priority),
        forall|k: int| 0 <= k < m ==> priority_code((#[trigger] tasks@[k]).priority)
            > priority_code(tasks@[m as int].priority),
{
    let mut m: usize = 0;
    let mut j: usize = 1;
    while j < tasks.len()
        invariant
            0 < j <= tasks@.len(),
            m < j,
            forall|k: int| 0 <= k < j ==> priority_code(tasks@[m as int].priority)
                <= priority_code((#[trigger] tasks@[k]).priority),
            forall|k: int| 0 <= k < m ==> priority_code((#[trigger] tasks@[k]).priority)
                > priority_code(tasks@[m as int].priority),
        decreases tasks@.len() - j,
    {
        if encode_priority(tasks[j].priority) < encode_priority(tasks[m].priority) {
            m = j;
        }
        j += 1;
    }
    m
}

/// Sort the collection by priority, `Low` before `Medium` before `High`.
/// The sort is stable: tasks with equal priorities keep their relative
/// order (for every priority, the subsequence bearing it is unchanged),
/// and the collection holds exactly the same tasks afterwards.
pub fn sort_tasks_by_priority(tasks: &mut Vec<Task>)
    ensures
        final(tasks)@.len() == old(tasks)@.len(),
        final(tasks)@.to_multiset() == old(tasks)@.to_multiset(),
        sorted_by_priority(final(tasks)@),
        forall|p: Priority| #[trigger] priority_filter(final(tasks)@, p) == priority_filter(
            old(tasks)@,
            p,
        ),
{
    let ghost orig = tasks@;
    let mut out: Vec<Task> = Vec::new();
    proof {
        assert forall|p: Priority| #[trigger] priority_filter(out@, p) + priority_filter(
            tasks@,
            p,
        ) == priority_filter(orig, p) by {
            reveal_with_fuel(Seq::<_>::filter, 2);
            assert(priority_filter(out@, p) =~= Seq::<Task>::empty());
            assert(priority_filter(out@, p) + priority_filter(orig, p) =~= priority_filter(
                orig,
                p,
            ));
        }
    }
    while tasks.len() > 0
        invariant
            out@.len() + tasks@.len() == orig.len(),
            out@.to_multiset().add(tasks@.to_multiset()) == orig.to_multiset(),
            sorted_by_priority(out@),
            forall|x: int, y: int|
                #![trigger out@[x], tasks@[y]]
                0 <= x < out@.len() && 0 <= y < tasks@.len() ==> priority_code(out@[x].priority)
                    <= priority_code(tasks@[y].priority),
            forall|p: Priority| #[trigger] priority_filter(out@, p) + priority_filter(tasks@, p)
                == priority_filter(orig, p),
        decreases tasks@.len(),
    {
        let m = min_priority_index(tasks);
        let ghost pre = tasks@;
        let ghost pre_out = out@;
        let t = tasks.remove(m);
        out.push(t);
        proof {
            assert(pre.contains(pre[m as int]));
            assert(pre.to_multiset().count(pre[m as int]) > 0);
            assert(tasks@ == pre.remove(m as int));
            assert(tasks@.to_multiset() =~= pre.to_multiset().remove(pre[m as int]));
            assert(out@.to_multiset() =~= pre_out.to_multiset().insert(pre[m as int]));
            assert(out@.to_multiset().add(tasks@.to_multiset()) =~= orig.to_multiset());
            assert forall|x: int, y: int|
                #![trigger out@[x], tasks@[y]]
                0 <= x < out@.len() && 0 <= y < tasks@.len() implies priority_code(
                out@[x].priority,
            ) <= priority_code(tasks@[y].priority) by {
                assert(tasks@[y] == if y < m { pre[y] } else { pre[y + 1] });
            }
            assert forall|p: Priority| #[trigger] priority_filter(out@, p) + priority_filter(
                tasks@,
                p,
            ) == priority_filter(orig, p) by {
                let pred = |t: Task| t.priority == p;
                let front = pre.take(m as int);
                let back = pre.skip(m as int + 1);
                let t0 = pre[m as int];
                assert(priority_filter(pre_out, p) + priority_filter(pre, p) == priority_filter(
                    orig,
                    p,
                ));
                assert(pre =~= front + seq![t0] + back);
                assert(tasks@ =~= front + back);
                Seq::filter_distributes_over_add(front + seq![t0], back, pred);
                Seq::filter_distributes_over_add(front, seq![t0], pred);
                Seq::filter_distributes_over_add(front, back, pred);
                reveal_with_fuel(Seq::<_>::filter, 2);
                assert(seq![t0].drop_last() =~= Seq::<Task>::empty());
                lemma_filter_push(pre_out, t0, pred);
                if pred(t0) {
                    // every task before the first minimum has a strictly
                    // greater code, so none of them bears the minimal
                    // priority
                    assert forall|i: int| 0 <= i < front.len() implies !pred(
                        #[trigger] front[i],
                    ) by {
                        assert(front[i] == pre[i]);
                    }
                    lemma_filter_all_excluded(front, pred);
                }
                assert(priority_filter(out@, p) + priority_filter(tasks@, p) =~= priority_filter(
                    orig,
                    p,
                ));
            }
        }
    }
    proof {
        assert(out@.to_multiset().add(tasks@.to_multiset()) =~= out@.to_multiset());
        assert forall|p: Priority| #[trigger] priority_filter(out@, p) == priority_filter(
            orig,
            p,
        ) by {
            assert(priority_filter(out@, p) + priority_filter(tasks@, p) == priority_filter(
                orig,
                p,
            ));
            reveal_with_fuel(Seq::<_>::filter, 2);
            assert(priority_filter(tasks@, p) =~= Seq::<Task>::empty());
            assert(priority_filter(out@, p) + priority_filter(tasks@, p) =~= priority_filter(
                out@,
                p,
            ));
        }
    }
    *tasks = out;
}

} // verus!
