//! Selecting tasks: which keys are task keys, the order of a listing, and the
//! conjunctive filter on priority, keywords and creation date.
use vstd::prelude::*;

use crate::codec::{decode, fields_view, key_id, parse_task_key, read_task, Fields};
use crate::model::{date_le, Date, Priority, Task, TaskError, TaskView};
use crate::text::{contains_text, occurs_in};

verus! {

/// What `str::to_lowercase` makes of a text.
pub uninterp spec fn lower_of(s: Seq<char>) -> Seq<char>;

/// Relies on `str::to_lowercase`: the lowercase form of the text, a function of
/// its characters alone; an empty text stays empty.
#[verifier::external_body]
fn lowercase(s: &str) -> (r: String)
    ensures
        r@ == lower_of(s@),
        s@.len() == 0 ==> r@.len() == 0,
{
    s.to_lowercase()
}

/// A filter specification; each part that is given must hold.
pub struct TaskFilter {
    pub priority: Option<Priority>,
    pub keywords: Option<String>,
    pub from: Option<Date>,
    pub to: Option<Date>,
}

pub struct FilterView {
    pub priority: Option<Priority>,
    pub keywords: Option<Seq<char>>,
    pub from: Option<Date>,
    pub to: Option<Date>,
}

impl View for TaskFilter {
    type V = FilterView;

    open spec fn view(&self) -> FilterView {
        FilterView {
            priority: self.priority,
            keywords: match self.keywords {
                Some(k) => Some(k@),
                None => None,
            },
            from: self.from,
            to: self.to,
        }
    }
}

pub open spec fn tasks_view(v: Seq<Task>) -> Seq<TaskView> {
    v.map_values(|t: Task| t@)
}

/// The ids of `s` strictly increase along it.
pub open spec fn ids_increasing(s: Seq<TaskView>) -> bool {
    forall|i: int, j: int| 0 <= i < j < s.len() ==> s[i].id < s[j].id
}

/// Keyword text, already folded, occurs in the folded title or description.
pub open spec fn keyword_hit(kw: Seq<char>, title: Seq<char>, description: Seq<char>) -> bool {
    occurs_in(kw, title) || occurs_in(kw, description)
}

/// A task satisfies every part of the filter that is given: the same priority,
/// the keywords in its title or description ignoring case, created on or after
/// `from` and on or before `to`.
pub open spec fn matches(t: TaskView, f: FilterView) -> bool {
    &&& (f.priority matches Some(p) ==> t.priority == p)
    &&& (f.keywords matches Some(k) ==> keyword_hit(
        lower_of(k),
        lower_of(t.title),
        lower_of(t.description),
    ))
    &&& (f.from matches Some(d) ==> date_le(d, t.created_at))
    &&& (f.to matches Some(d) ==> date_le(t.created_at, d))
}

/// The tasks of `s` that pass `f`, in their order.
pub open spec fn filtered(s: Seq<TaskView>, f: FilterView) -> Seq<TaskView> {
    s.filter(|t: TaskView| matches(t, f))
}

impl TaskFilter {
    /// The filter that passes every task.
    pub fn all() -> (r: TaskFilter)
        ensures
            r.priority is None && r.keywords is None && r.from is None && r.to is None,
    {
        TaskFilter { priority: None, keywords: None, from: None, to: None }
    }
}

/// Whether the folded keyword text occurs in the folded title or description.
pub fn keyword_matches_folded(kw: &str, title: &str, description: &str) -> (r: bool)
    ensures
        r == keyword_hit(kw@, title@, description@),
{
    contains_text(title, kw) || contains_text(description, kw)
}

/// Whether the task passes the filter.
pub fn task_matches(t: &Task, f: &TaskFilter) -> (r: bool)
    ensures
        r == matches(t@, f@),
{
    if let Some(p) = f.priority {
        if t.priority != p {
            return false;
        }
    }
    if let Some(d) = f.from {
        if !d.on_or_before(&t.created_at) {
            return false;
        }
    }
    if let Some(d) = f.to {
        if !t.created_at.on_or_before(&d) {
            return false;
        }
    }
    match &f.keywords {
        Some(k) => {
            let kw = lowercase(k.as_str());
            let title = lowercase(t.title.as_str());
            let description = lowercase(t.description.as_str());
            keyword_matches_folded(kw.as_str(), title.as_str(), description.as_str())
        },
        None => true,
    }
}

/// The tasks that pass the filter, in the order given. With no part given,
/// every task passes.
pub fn filter_tasks(tasks: &Vec<Task>, f: &TaskFilter) -> (r: Vec<Task>)
    ensures
        tasks_view(r@) == filtered(tasks_view(tasks@), f@),
        ids_increasing(tasks_view(tasks@)) ==> ids_increasing(tasks_view(r@)),
{
    let ghost tv = tasks_view(tasks@);
    let mut r: Vec<Task> = Vec::new();
    let n = tasks.len();
    let mut i: usize = 0;
    while i < n
        invariant
            n == tasks@.len(),
            tv == tasks_view(tasks@),
            0 <= i <= n,
            tasks_view(r@) == filtered(tv.subrange(0, i as int), f@),
            forall|k: int|
                0 <= k < r@.len() ==> exists|j: int| 0 <= j < i && #[trigger] r@[k]@ == tv[j],
            ids_increasing(tv) ==> ids_increasing(tasks_view(r@)),
        decreases n - i,
    {
        let ghost before = r@;
        assert(tv.subrange(0, i + 1).drop_last() =~= tv.subrange(0, i as int));
        assert(tv.subrange(0, i + 1).last() == tasks@[i as int]@);
        proof {
            reveal(Seq::filter);
        }
        assert(filtered(tv.subrange(0, i + 1), f@) == if matches(tasks@[i as int]@, f@) {
            filtered(tv.subrange(0, i as int), f@).push(tasks@[i as int]@)
        } else {
            filtered(tv.subrange(0, i as int), f@)
        });
        if task_matches(&tasks[i], f) {
            r.push(tasks[i].duplicate());
            assert(tasks_view(r@) =~= tasks_view(before).push(tasks@[i as int]@));
            assert forall|k: int| 0 <= k < r@.len() implies exists|j: int|
                0 <= j < i + 1 && #[trigger] r@[k]@ == tv[j] by {
                if k < before.len() {
                    assert(r@[k] == before[k]);
                } else {
                    assert(r@[k]@ == tv[i as int]);
                }
            }
            proof {
                if ids_increasing(tv) {
                    let rv = tasks_view(r@);
                    assert forall|a: int, b: int| 0 <= a < b < rv.len() implies rv[a].id < rv[b].id by {
                        assert(rv[a] == r@[a]@);
                        assert(rv[b] == r@[b]@);
                        assert(r@[a] == before[a]);
                        let ja = choose|j: int| 0 <= j < i && #[trigger] before[a]@ == tv[j];
                        if b < before.len() {
                            assert(r@[b] == before[b]);
                            assert(tasks_view(before)[a] == before[a]@);
                            assert(tasks_view(before)[b] == before[b]@);
                        } else {
                            assert(rv[b] == tv[i as int]);
                        }
                    }
                }
            }
        }
        i = i + 1;
    }
    assert(tv.subrange(0, n as int) =~= tv);
    r
}

/// Filtering what a filter let through changes nothing.
pub proof fn lemma_filter_idempotent(s: Seq<TaskView>, f: FilterView)
    ensures
        filtered(filtered(s, f), f) == filtered(s, f),
    decreases s.len(),
{
    reveal(Seq::filter);
    if s.len() > 0 {
        lemma_filter_idempotent(s.drop_last(), f);
        let sub = filtered(s.drop_last(), f);
        if matches(s.last(), f) {
            let g = sub.push(s.last());
            assert(filtered(s, f) == g);
            assert(g.drop_last() =~= sub);
            assert(g.last() == s.last());
            assert(filtered(g, f) == filtered(g.drop_last(), f).push(g.last()));
        } else {
            assert(filtered(s, f) == sub);
        }
    }
}

pub open spec fn strictly_increasing(v: Seq<u32>) -> bool {
    forall|i: int, j: int| 0 <= i < j < v.len() ==> v[i] < v[j]
}

/// Adds `x` to a strictly increasing sequence of ids, keeping it so.
fn insert_id(v: &mut Vec<u32>, x: u32)
    requires
        strictly_increasing(old(v)@),
    ensures
        strictly_increasing(final(v)@),
        forall|y: u32| final(v)@.contains(y) <==> (old(v)@.contains(y) || y == x),
{
    let n = v.len();
    let mut pos: usize = 0;
    while pos < n && v[pos] < x
        invariant
            n == v@.len(),
            v@ == old(v)@,
            0 <= pos <= n,
            forall|j: int| 0 <= j < pos ==> v@[j] < x,
        decreases n - pos,
    {
        pos = pos + 1;
    }
    if pos < n && v[pos] == x {
        assert(v@.contains(x)) by {
            assert(v@[pos as int] == x);
        }
        return;
    }
    let ghost old_v = v@;
    assert(old_v == old(v)@);
    v.insert(pos, x);
    assert(v@ == old_v.insert(pos as int, x));
    assert forall|y: u32| #[trigger] v@.contains(y) implies old_v.contains(y) || y == x by {
        let k = choose|k: int| 0 <= k < v@.len() && v@[k] == y;
        if k < pos {
            assert(old_v[k] == y);
        } else if k > pos {
            assert(old_v[k - 1] == y);
        }
    }
    assert forall|y: u32| #[trigger] old_v.contains(y) implies v@.contains(y) by {
        let k = choose|k: int| 0 <= k < old_v.len() && old_v[k] == y;
        if k < pos {
            assert(v@[k] == y);
        } else {
            assert(v@[k + 1] == y);
        }
    }
    assert(v@[pos as int] == x);
    assert(v@.contains(x));
}

/// The ids of the task keys among `keys`, ascending and each once; other keys,
/// the counter's among them, are passed over.
pub fn task_ids_from_keys(keys: &Vec<String>) -> (r: Vec<u32>)
    ensures
        strictly_increasing(r@),
        forall|id: u32|
            r@.contains(id) <==> exists|i: int|
                0 <= i < keys@.len() && key_id(#[trigger] keys@[i]@) == Some(id),
{
    let mut r: Vec<u32> = Vec::new();
    let n = keys.len();
    let mut i: usize = 0;
    while i < n
        invariant
            n == keys@.len(),
            0 <= i <= n,
            strictly_increasing(r@),
            forall|id: u32|
                r@.contains(id) <==> exists|k: int|
                    0 <= k < i && key_id(#[trigger] keys@[k]@) == Some(id),
        decreases n - i,
    {
        match parse_task_key(keys[i].as_str()) {
            Some(id) => insert_id(&mut r, id),
            None => {},
        }
        assert forall|id: u32|
            r@.contains(id) <==> exists|k: int|
                0 <= k < i + 1 && key_id(#[trigger] keys@[k]@) == Some(id) by {
            if key_id(keys@[i as int]@) == Some(id) {
                assert(r@.contains(id));
            }
        }
        i = i + 1;
    }
    r
}

/// The records that a listing yields from the hashes fetched for `ids`, in that
/// order: an id whose hash is empty (deleted since it was enumerated) is passed
/// over; a corrupt record fails the whole listing.
pub open spec fn listing(ids: Seq<u32>, fetched: Seq<Seq<(Seq<char>, Seq<char>)>>) -> Result<
    Seq<TaskView>,
    TaskError,
>
    decreases ids.len(),
{
    if ids.len() == 0 || fetched.len() != ids.len() {
        Ok(Seq::empty())
    } else {
        match listing(ids.drop_last(), fetched.drop_last()) {
            Err(e) => Err(e),
            Ok(s) => match decode(ids.last(), fetched.last()) {
                Err(e) => Err(e),
                Ok(None) => Ok(s),
                Ok(Some(t)) => Ok(s.push(t)),
            },
        }
    }
}

pub open spec fn fetched_view(v: Seq<Fields>) -> Seq<Seq<(Seq<char>, Seq<char>)>> {
    v.map_values(|f: Fields| fields_view(f@))
}

/// Decodes the hashes fetched for `ids`, one per id, into the listing.
pub fn collect_listing(ids: &Vec<u32>, fetched: &Vec<Fields>) -> (r: Result<Vec<Task>, TaskError>)
    requires
        ids@.len() == fetched@.len(),
    ensures
        match r {
            Ok(v) => listing(ids@, fetched_view(fetched@)) == Ok::<Seq<TaskView>, TaskError>(
                tasks_view(v@),
            ),
            Err(e) => listing(ids@, fetched_view(fetched@)) == Err::<Seq<TaskView>, TaskError>(e),
        },
{
    let ghost fv = fetched_view(fetched@);
    let mut r: Vec<Task> = Vec::new();
    assert(tasks_view(r@) =~= Seq::<TaskView>::empty());
    let n = ids.len();
    let mut i: usize = 0;
    while i < n
        invariant
            n == ids@.len(),
            n == fetched@.len(),
            fv == fetched_view(fetched@),
            0 <= i <= n,
            listing(ids@.subrange(0, i as int), fv.subrange(0, i as int)) == Ok::<
                Seq<TaskView>,
                TaskError,
            >(tasks_view(r@)),
        decreases n - i,
    {
        let ghost a = ids@.subrange(0, i + 1);
        let ghost b = fv.subrange(0, i + 1);
        assert(a.drop_last() =~= ids@.subrange(0, i as int));
        assert(b.drop_last() =~= fv.subrange(0, i as int));
        assert(b.last() == fields_view(fetched@[i as int]@));
        assert(a.last() == ids@[i as int]);
        let ghost before = r@;
        let got = read_task(ids[i], &fetched[i]);
        match got {
            Err(e) => {
                proof {
                    lemma_listing_err_stays(ids@, fv, i + 1, e);
                }
                return Err(e);
            },
            Ok(None) => {},
            Ok(Some(t)) => {
                r.push(t);
                assert(tasks_view(r@) =~= tasks_view(before).push(r@.last()@));
            },
        }
        i = i + 1;
    }
    assert(ids@.subrange(0, n as int) =~= ids@);
    assert(fv.subrange(0, n as int) =~= fv);
    Ok(r)
}

/// The listing of the hashes fetched for `ids`, narrowed by the filter.
pub fn list_tasks(ids: &Vec<u32>, fetched: &Vec<Fields>, f: &TaskFilter) -> (r: Result<
    Vec<Task>,
    TaskError,
>)
    requires
        ids@.len() == fetched@.len(),
    ensures
        match r {
            Ok(v) => listing(ids@, fetched_view(fetched@)) matches Ok(all) && tasks_view(v@)
                == filtered(all, f@),
            Err(e) => listing(ids@, fetched_view(fetched@)) == Err::<Seq<TaskView>, TaskError>(e),
        },
        strictly_increasing(ids@) ==> (r matches Ok(v) ==> ids_increasing(tasks_view(v@))),
{
    proof {
        if strictly_increasing(ids@) {
            lemma_listing_ordered(ids@, fetched_view(fetched@));
        }
    }
    match collect_listing(ids, fetched) {
        Ok(all) => Ok(filter_tasks(&all, f)),
        Err(e) => Err(e),
    }
}

/// Read through strictly increasing ids, a listing comes out in strictly
/// increasing id order, each record under one of those ids.
pub proof fn lemma_listing_ordered(ids: Seq<u32>, fetched: Seq<Seq<(Seq<char>, Seq<char>)>>)
    requires
        strictly_increasing(ids),
        ids.len() == fetched.len(),
    ensures
        listing(ids, fetched) matches Ok(s) ==> (forall|i: int, j: int|
            0 <= i < j < s.len() ==> s[i].id < s[j].id) && (forall|k: int|
            0 <= k < s.len() ==> exists|j: int| 0 <= j < ids.len() && ids[j] == #[trigger] s[k].id),
    decreases ids.len(),
{
    if ids.len() > 0 {
        let a = ids.drop_last();
        assert(strictly_increasing(a)) by {
            assert forall|i: int, j: int| 0 <= i < j < a.len() implies a[i] < a[j] by {
                assert(a[i] == ids[i] && a[j] == ids[j]);
            }
        }
        lemma_listing_ordered(a, fetched.drop_last());
        if let Ok(s0) = listing(a, fetched.drop_last()) {
            assert forall|k: int| 0 <= k < s0.len() implies #[trigger] s0[k].id < ids.last() by {
                let j = choose|j: int| 0 <= j < a.len() && a[j] == s0[k].id;
                assert(a[j] == ids[j]);
            }
            if let Ok(Some(t)) = decode(ids.last(), fetched.last()) {
                let s = s0.push(t);
                assert forall|k: int| 0 <= k < s.len() implies exists|j: int|
                    0 <= j < ids.len() && ids[j] == #[trigger] s[k].id by {
                    if k < s0.len() {
                        let j = choose|j: int| 0 <= j < a.len() && a[j] == s0[k].id;
                        assert(ids[j] == s[k].id);
                    } else {
                        assert(ids[ids.len() - 1] == s[k].id);
                    }
                }
                assert forall|i: int, j: int| 0 <= i < j < s.len() implies s[i].id < s[j].id by {
                    assert(s[i] == s0[i]);
                    if j < s0.len() {
                        assert(s[j] == s0[j]);
                    }
                }
            } else {
                assert forall|k: int| 0 <= k < s0.len() implies exists|j: int|
                    0 <= j < ids.len() && ids[j] == #[trigger] s0[k].id by {
                    let j = choose|j: int| 0 <= j < a.len() && a[j] == s0[k].id;
                    assert(ids[j] == s0[k].id);
                }
            }
        }
    }
}

/// A failure of a listing's prefix is the failure of the whole listing.
proof fn lemma_listing_err_stays(
    ids: Seq<u32>,
    fv: Seq<Seq<(Seq<char>, Seq<char>)>>,
    k: int,
    e: TaskError,
)
    requires
        ids.len() == fv.len(),
        0 < k <= ids.len(),
        listing(ids.subrange(0, k), fv.subrange(0, k)) == Err::<Seq<TaskView>, TaskError>(e),
    ensures
        listing(ids, fv) == Err::<Seq<TaskView>, TaskError>(e),
    decreases ids.len() - k,
{
    if k < ids.len() {
        let a = ids.subrange(0, k + 1);
        let b = fv.subrange(0, k + 1);
        assert(a.drop_last() =~= ids.subrange(0, k));
        assert(b.drop_last() =~= fv.subrange(0, k));
        lemma_listing_err_stays(ids, fv, k + 1, e);
    } else {
        assert(ids.subrange(0, k) =~= ids);
        assert(fv.subrange(0, k) =~= fv);
    }
}

} // verus!
