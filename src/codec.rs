//! How a task lives in the key-value store: under the key `task:{id}`, as a hash
//! whose fields are `id`, `title`, `description`, `priority`, `status` and
//! `created_at`; and how the identifier counter at `task:counter` is read.
use vstd::prelude::*;
use vstd::arithmetic::div_mod::lemma_small_mod;

use crate::model::{
    created_task,     lemma_names_round_trip,     priority_name, priority_named, status_name, status_named, task_wf, valid_date, Date, Priority,
    Status, Task, TaskError, TaskView,
};
use crate::text::{
    lemma_decimal, lemma_padded, pow10, all_digits, decimal, digits_value, padded, parse_u32, push_decimal, push_padded, same_text,
};

verus! {

/// A hash's fields as the store hands them over: (field, value) pairs.
pub type Fields = Vec<(String, String)>;

pub open spec fn fields_view(f: Seq<(String, String)>) -> Seq<(Seq<char>, Seq<char>)> {
    f.map_values(|p: (String, String)| (p.0@, p.1@))
}

pub open spec fn key_prefix() -> Seq<char> {
    seq!['t', 'a', 's', 'k', ':']
}

pub open spec fn counter_key_text() -> Seq<char> {
    key_prefix() + seq!['c', 'o', 'u', 'n', 't', 'e', 'r']
}

/// The key of the task with this id.
pub open spec fn key_text(id: u32) -> Seq<char> {
    key_prefix() + decimal(id as nat)
}

/// The number that a decimal digit string spells, when it fits a `u32`.
pub open spec fn number_of(s: Seq<char>) -> Option<u32> {
    if s.len() > 0 && all_digits(s) && digits_value(s) <= u32::MAX {
        Some(digits_value(s) as u32)
    } else {
        None
    }
}

/// The id that a key names, if it is the key of a task.
pub open spec fn key_id(k: Seq<char>) -> Option<u32> {
    if k.len() > 5 && k.subrange(0, 5) == key_prefix() {
        number_of(k.subrange(5, k.len() as int))
    } else {
        None
    }
}

pub open spec fn field_id() -> Seq<char> {
    seq!['i', 'd']
}

pub open spec fn field_title() -> Seq<char> {
    seq!['t', 'i', 't', 'l', 'e']
}

pub open spec fn field_description() -> Seq<char> {
    seq!['d', 'e', 's', 'c', 'r', 'i', 'p', 't', 'i', 'o', 'n']
}

pub open spec fn field_priority() -> Seq<char> {
    seq!['p', 'r', 'i', 'o', 'r', 'i', 't', 'y']
}

pub open spec fn field_status() -> Seq<char> {
    seq!['s', 't', 'a', 't', 'u', 's']
}

pub open spec fn field_created_at() -> Seq<char> {
    seq!['c', 'r', 'e', 'a', 't', 'e', 'd', '_', 'a', 't']
}

/// A date as `YYYY-MM-DD`.
pub open spec fn date_text(d: Date) -> Seq<char> {
    padded(d.year as nat, 4) + seq!['-'] + padded(d.month as nat, 2) + seq!['-'] + padded(
        d.day as nat,
        2,
    )
}

/// The date that a `YYYY-MM-DD` text names, if it is a real one.
pub open spec fn date_of(s: Seq<char>) -> Option<Date> {
    let y = number_of(s.subrange(0, 4));
    let m = number_of(s.subrange(5, 7));
    let d = number_of(s.subrange(8, 10));
    if s.len() == 10 && s[4] == '-' && s[7] == '-' && y is Some && m is Some && d is Some
        && valid_date(y->0 as int, m->0 as int, d->0 as int) {
        Some(Date { year: y->0, month: m->0, day: d->0 })
    } else {
        None
    }
}

/// The stored fields of a task, in this order.
pub open spec fn encode(t: TaskView) -> Seq<(Seq<char>, Seq<char>)> {
    seq![
        (field_id(), decimal(t.id as nat)),
        (field_title(), t.title),
        (field_description(), t.description),
        (field_priority(), priority_name(t.priority)),
        (field_status(), status_name(t.status)),
        (field_created_at(), date_text(t.created_at)),
    ]
}

/// The value of the first pair whose field is `k`.
pub open spec fn lookup(f: Seq<(Seq<char>, Seq<char>)>, k: Seq<char>) -> Option<Seq<char>>
    decreases f.len(),
{
    if f.len() == 0 {
        None
    } else if f[0].0 == k {
        Some(f[0].1)
    } else {
        lookup(f.drop_first(), k)
    }
}

/// The record that a hash spells, if every field is there and decodes.
pub open spec fn record_of(f: Seq<(Seq<char>, Seq<char>)>) -> Option<TaskView> {
    let id = lookup(f, field_id());
    let title = lookup(f, field_title());
    let description = lookup(f, field_description());
    let priority = lookup(f, field_priority());
    let status = lookup(f, field_status());
    let created = lookup(f, field_created_at());
    if id is Some && number_of(id->0) is Some && title is Some && description is Some
        && priority is Some && priority_named(priority->0) is Some && status is Some
        && status_named(status->0) is Some && created is Some && date_of(created->0) is Some {
        Some(
            TaskView {
                id: number_of(id->0)->0,
                title: title->0,
                description: description->0,
                priority: priority_named(priority->0)->0,
                status: status_named(status->0)->0,
                created_at: date_of(created->0)->0,
            },
        )
    } else {
        None
    }
}

/// What reading the hash stored under the key of `id` yields: absent when the
/// hash is empty, the record when it is whole, valid and under its own id,
/// `Corrupt` otherwise.
pub open spec fn decode(id: u32, f: Seq<(Seq<char>, Seq<char>)>) -> Result<
    Option<TaskView>,
    TaskError,
> {
    if f.len() == 0 {
        Ok(None)
    } else {
        match record_of(f) {
            Some(t) => if t.id == id && task_wf(t) {
                Ok(Some(t))
            } else {
                Err(TaskError::Corrupt)
            },
            None => Err(TaskError::Corrupt),
        }
    }
}

pub open spec fn read_view(r: Result<Option<Task>, TaskError>) -> Result<Option<TaskView>, TaskError> {
    match r {
        Ok(Some(t)) => Ok(Some(t@)),
        Ok(None) => Ok(None),
        Err(e) => Err(e),
    }
}

/// The id that a reply of the counter's atomic increment allocates.
pub open spec fn counter_id(reply: int) -> Result<u32, TaskError> {
    if 1 <= reply <= u32::MAX {
        Ok(reply as u32)
    } else {
        Err(TaskError::Corrupt)
    }
}

/// The outcome of deleting a task's key, given how many keys the store removed.
pub open spec fn delete_result(removed: int) -> Result<(), TaskError> {
    if removed == 0 {
        Err(TaskError::NotFound)
    } else {
        Ok(())
    }
}

/// The key of the identifier counter, `task:counter`.
pub fn counter_key() -> (r: &'static str)
    ensures
        r@ == counter_key_text(),
{
    proof {
        reveal_strlit("task:counter");
    }
    let r = "task:counter";
    assert(r@ =~= counter_key_text());
    r
}

fn prefix_text() -> (r: &'static str)
    ensures
        r@ == key_prefix(),
{
    proof {
        reveal_strlit("task:");
    }
    let r = "task:";
    assert(r@ =~= key_prefix());
    r
}

/// The key `task:{id}` under which the task with this id is stored.
pub fn task_key(id: u32) -> (r: String)
    ensures
        r@ == key_text(id),
{
    let mut r = String::from_str(prefix_text());
    push_decimal(&mut r, id);
    r
}

/// The id of a task key; `None` for any other key, the counter's among them.
pub fn parse_task_key(k: &str) -> (r: Option<u32>)
    ensures
        r == key_id(k@),
{
    let n = k.unicode_len();
    if n <= 5 {
        return None;
    }
    if !same_text(k.substring_char(0, 5), prefix_text()) {
        return None;
    }
    parse_number(k.substring_char(5, n))
}

/// Reads a decimal number that fits a `u32`.
pub fn parse_number(s: &str) -> (r: Option<u32>)
    ensures
        r == number_of(s@),
{
    match parse_u32(s) {
        Some(v) => Some(v),
        None => None,
    }
}

/// Writes a date as `YYYY-MM-DD`.
pub fn format_date(d: &Date) -> (r: String)
    requires
        d.wf(),
    ensures
        r@ == date_text(*d),
{
    let mut r = String::new();
    push_padded(&mut r, d.year, 4);
    r.append(dash());
    push_padded(&mut r, d.month, 2);
    r.append(dash());
    push_padded(&mut r, d.day, 2);
    r
}

fn dash() -> (r: &'static str)
    ensures
        r@ == seq!['-'],
{
    proof {
        reveal_strlit("-");
    }
    let r = "-";
    assert(r@ =~= seq!['-']);
    r
}

/// Reads a `YYYY-MM-DD` date; `None` unless the text has that shape and names a
/// real day.
pub fn parse_date(s: &str) -> (r: Option<Date>)
    ensures
        r == date_of(s@),
{
    let n = s.unicode_len();
    if n != 10 {
        return None;
    }
    if s.get_char(4) != '-' || s.get_char(7) != '-' {
        return None;
    }
    let y = parse_number(s.substring_char(0, 4));
    let m = parse_number(s.substring_char(5, 7));
    let d = parse_number(s.substring_char(8, 10));
    match (y, m, d) {
        (Some(y), Some(m), Some(d)) => Date::new(y, m, d),
        _ => None,
    }
}

fn name_id() -> (r: &'static str)
    ensures
        r@ == field_id(),
{
    proof {
        reveal_strlit("id");
    }
    let r = "id";
    assert(r@ =~= field_id());
    r
}

fn name_title() -> (r: &'static str)
    ensures
        r@ == field_title(),
{
    proof {
        reveal_strlit("title");
    }
    let r = "title";
    assert(r@ =~= field_title());
    r
}

fn name_description() -> (r: &'static str)
    ensures
        r@ == field_description(),
{
    proof {
        reveal_strlit("description");
    }
    let r = "description";
    assert(r@ =~= field_description());
    r
}

fn name_priority() -> (r: &'static str)
    ensures
        r@ == field_priority(),
{
    proof {
        reveal_strlit("priority");
    }
    let r = "priority";
    assert(r@ =~= field_priority());
    r
}

/// The name of the status field, the one field that a status change rewrites.
pub fn name_status() -> (r: &'static str)
    ensures
        r@ == field_status(),
{
    proof {
        reveal_strlit("status");
    }
    let r = "status";
    assert(r@ =~= field_status());
    r
}

fn name_created_at() -> (r: &'static str)
    ensures
        r@ == field_created_at(),
{
    proof {
        reveal_strlit("created_at");
    }
    let r = "created_at";
    assert(r@ =~= field_created_at());
    r
}

/// The fields to write under the task's key, one pair per field.
pub fn task_fields(t: &Task) -> (r: Fields)
    requires
        t.wf(),
    ensures
        fields_view(r@) == encode(t@),
{
    let mut r: Fields = Vec::new();
    let mut id_text = String::new();
    push_decimal(&mut id_text, t.id);
    r.push((String::from_str(name_id()), id_text));
    r.push((String::from_str(name_title()), t.title.clone()));
    r.push((String::from_str(name_description()), t.description.clone()));
    r.push((String::from_str(name_priority()), String::from_str(t.priority.canonical_name())));
    r.push((String::from_str(name_status()), String::from_str(t.status.canonical_name())));
    r.push((String::from_str(name_created_at()), format_date(&t.created_at)));
    assert(fields_view(r@) =~= encode(t@));
    r
}

/// The position of the first pair whose field is `k`.
fn find_field(fields: &Fields, k: &str) -> (r: Option<usize>)
    ensures
        r matches Some(i) ==> i < fields@.len() && lookup(fields_view(fields@), k@) == Some(
            fields@[i as int].1@,
        ),
        r is None ==> lookup(fields_view(fields@), k@) is None,
{
    let ghost fv = fields_view(fields@);
    let n = fields.len();
    let mut i: usize = 0;
    assert(fv.subrange(0, n as int) =~= fv);
    while i < n
        invariant
            n == fields@.len(),
            fv == fields_view(fields@),
            0 <= i <= n,
            lookup(fv, k@) == lookup(fv.subrange(i as int, n as int), k@),
        decreases n - i,
    {
        let ghost rest = fv.subrange(i as int, n as int);
        assert(rest[0] == fv[i as int]);
        if same_text(fields[i].0.as_str(), k) {
            return Some(i);
        }
        assert(rest.drop_first() =~= fv.subrange(i + 1, n as int));
        i = i + 1;
    }
    None
}

/// Reads the record stored under the key of `id` from the hash's fields.
/// No fields means no record; a record that lacks a field, holds one that does
/// not decode, names another id or has an empty text is `Corrupt`.
pub fn read_task(id: u32, fields: &Fields) -> (r: Result<Option<Task>, TaskError>)
    ensures
        read_view(r) == decode(id, fields_view(fields@)),
{
    if fields.len() == 0 {
        return Ok(None);
    }
    let id_value = match find_field(fields, name_id()) {
        Some(i) => parse_number(fields[i].1.as_str()),
        None => None,
    };
    let title = match find_field(fields, name_title()) {
        Some(i) => Some(fields[i].1.clone()),
        None => None,
    };
    let description = match find_field(fields, name_description()) {
        Some(i) => Some(fields[i].1.clone()),
        None => None,
    };
    let priority = match find_field(fields, name_priority()) {
        Some(i) => Priority::from_canonical_name(fields[i].1.as_str()),
        None => None,
    };
    let status = match find_field(fields, name_status()) {
        Some(i) => Status::from_canonical_name(fields[i].1.as_str()),
        None => None,
    };
    let created_at = match find_field(fields, name_created_at()) {
        Some(i) => parse_date(fields[i].1.as_str()),
        None => None,
    };
    match (id_value, title, description, priority, status, created_at) {
        (Some(v), Some(title), Some(description), Some(priority), Some(status), Some(created_at)) => {
            if v != id || title.as_str().unicode_len() == 0 || description.as_str().unicode_len()
                == 0 {
                return Err(TaskError::Corrupt);
            }
            Ok(Some(Task { id: v, title, description, priority, status, created_at }))
        },
        _ => Err(TaskError::Corrupt),
    }
}

/// The id allocated by one atomic increment of the counter, from the store's
/// reply; a reply outside `1..=u32::MAX` is `Corrupt`.
pub fn id_from_counter(reply: i64) -> (r: Result<u32, TaskError>)
    ensures
        r == counter_id(reply as int),
{
    if reply >= 1 && reply <= 0xffff_ffff {
        Ok(reply as u32)
    } else {
        Err(TaskError::Corrupt)
    }
}

/// The record that creation makes from the counter's reply and the caller's
/// inputs, in status `ToDo`. A reply that allocates no id is `Corrupt`; an empty
/// title or description is a `ValidationError`.
pub fn create_task(
    counter_reply: i64,
    title: String,
    description: String,
    priority: Priority,
    created_at: Date,
) -> (r: Result<Task, TaskError>)
    requires
        created_at.wf(),
    ensures
        counter_id(counter_reply as int) is Err ==> r == Err::<Task, TaskError>(TaskError::Corrupt),
        counter_id(counter_reply as int) is Ok && (title@.len() == 0 || description@.len() == 0)
            ==> r == Err::<Task, TaskError>(TaskError::ValidationError),
        r is Ok <==> (counter_id(counter_reply as int) is Ok && title@.len() > 0
            && description@.len() > 0),
        r matches Ok(t) ==> t@ == created_task(
            counter_id(counter_reply as int)->Ok_0,
            title@,
            description@,
            priority,
            created_at,
        ) && t.wf(),
{
    let id = match id_from_counter(counter_reply) {
        Ok(id) => id,
        Err(e) => return Err(e),
    };
    Task::new(id, title, description, priority, created_at)
}

/// The outcome of a delete, from the number of keys the store removed.
pub fn delete_outcome(removed: u64) -> (r: Result<(), TaskError>)
    ensures
        r == delete_result(removed as int),
{
    if removed == 0 {
        Err(TaskError::NotFound)
    } else {
        Ok(())
    }
}

/// The one field that a status change writes, if the task's key exists.
pub fn status_change(exists: bool, status: Status) -> (r: Result<(String, String), TaskError>)
    ensures
        !exists <==> r is Err,
        r is Err ==> r == Err::<(String, String), TaskError>(TaskError::NotFound),
        r matches Ok(p) ==> p.0@ == field_status() && p.1@ == status_name(status),
{
    if !exists {
        return Err(TaskError::NotFound);
    }
    Ok((String::from_str(name_status()), String::from_str(status.canonical_name())))
}

proof fn lemma_lookup_unique(f: Seq<(Seq<char>, Seq<char>)>, k: Seq<char>, v: Seq<char>, i: int)
    requires
        0 <= i < f.len(),
        f[i].0 == k,
        forall|j: int| 0 <= j < f.len() && #[trigger] f[j].0 == k ==> f[j].1 == v,
    ensures
        lookup(f, k) == Some(v),
    decreases f.len(),
{
    if f[0].0 != k {
        let g = f.drop_first();
        assert forall|j: int| 0 <= j < g.len() && #[trigger] g[j].0 == k implies g[j].1 == v by {
            assert(g[j] == f[j + 1]);
        }
        assert(g[i - 1] == f[i]);
        lemma_lookup_unique(g, k, v, i - 1);
    }
}

proof fn lemma_number_of_padded(n: nat, w: nat)
    requires
        w > 0,
        n < pow10(w),
        pow10(w) <= u32::MAX + 1,
    ensures
        number_of(padded(n, w)) == Some(n as u32),
{
    lemma_padded(n, w);
    lemma_small_mod(n, pow10(w));
}

proof fn lemma_date_round_trip(d: Date)
    requires
        d.wf(),
    ensures
        date_of(date_text(d)) == Some(d),
{
    reveal_with_fuel(pow10, 5);
    lemma_padded(d.year as nat, 4);
    lemma_padded(d.month as nat, 2);
    lemma_padded(d.day as nat, 2);
    lemma_number_of_padded(d.year as nat, 4);
    lemma_number_of_padded(d.month as nat, 2);
    lemma_number_of_padded(d.day as nat, 2);
    let s = date_text(d);
    assert(s.subrange(0, 4) =~= padded(d.year as nat, 4));
    assert(s.subrange(5, 7) =~= padded(d.month as nat, 2));
    assert(s.subrange(8, 10) =~= padded(d.day as nat, 2));
    assert(s[4] == '-');
    assert(s[7] == '-');
}

/// A stored record reads back whole: whatever order the store returns the
/// fields written for `t` in, reading them under `t`'s id gives `t`.
pub proof fn lemma_store_round_trip(t: TaskView, f: Seq<(Seq<char>, Seq<char>)>)
    requires
        task_wf(t),
        forall|p: (Seq<char>, Seq<char>)| f.contains(p) <==> encode(t).contains(p),
    ensures
        decode(t.id, f) == Ok::<Option<TaskView>, TaskError>(Some(t)),
{
    let e = encode(t);
    lemma_decimal(t.id as nat);
    lemma_names_round_trip(t.priority, t.status);
    lemma_date_round_trip(t.created_at);
    assert forall|k: int| 0 <= k < 6 implies f.contains(#[trigger] e[k]) by {
        assert(e.contains(e[k]));
    }
    assert forall|j: int| 0 <= j < f.len() implies e.contains(#[trigger] f[j]) by {
        assert(f.contains(f[j]));
    }
    assert forall|k: int| 0 <= k < 6 implies lookup(f, (#[trigger] e[k]).0) == Some(e[k].1) by {
        assert(f.contains(e[k]));
        let i = choose|i: int| 0 <= i < f.len() && #[trigger] f[i] == e[k];
        assert forall|j: int| 0 <= j < f.len() && #[trigger] f[j].0 == e[k].0 implies f[j].1
            == e[k].1 by {
            assert(e.contains(f[j]));
            let k2 = choose|k2: int| 0 <= k2 < 6 && #[trigger] e[k2] == f[j];
            assert(e[k2].0 == e[k].0);
            assert(e[k2].0.len() == e[k].0.len());
        }
        lemma_lookup_unique(f, e[k].0, e[k].1, i);
    }
    assert(lookup(f, field_id()) == Some(decimal(t.id as nat))) by { assert(e[0].0 == field_id()); }
    assert(lookup(f, field_title()) == Some(t.title)) by { assert(e[1].0 == field_title()); }
    assert(lookup(f, field_description()) == Some(t.description)) by {
        assert(e[2].0 == field_description());
    }
    assert(lookup(f, field_priority()) == Some(priority_name(t.priority))) by {
        assert(e[3].0 == field_priority());
    }
    assert(lookup(f, field_status()) == Some(status_name(t.status))) by {
        assert(e[4].0 == field_status());
    }
    assert(lookup(f, field_created_at()) == Some(date_text(t.created_at))) by {
        assert(e[5].0 == field_created_at());
    }
    assert(f.len() > 0) by {
        assert(f.contains(e[0]));
        let i = choose|i: int| 0 <= i < f.len() && #[trigger] f[i] == e[0];
    }
}

/// Writing the pair of `status_change` over a stored record changes its status
/// and nothing else: reading it back gives the same record with the new status.
pub proof fn lemma_status_overwrite(t: TaskView, st: Status)
    requires
        task_wf(t),
    ensures
        encode(t).update(4, (field_status(), status_name(st))) == encode(TaskView { status: st, ..t }),
        decode(t.id, encode(t).update(4, (field_status(), status_name(st)))) == Ok::<
            Option<TaskView>,
            TaskError,
        >(Some(TaskView { status: st, ..t })),
{
    let u = TaskView { status: st, ..t };
    assert(encode(t).update(4, (field_status(), status_name(st))) =~= encode(u));
    lemma_store_round_trip(u, encode(u));
}

/// Once a task's key is deleted its hash is empty, so reading it gives no
/// record, and deleting it again removes nothing and fails with `NotFound`.
pub proof fn lemma_delete_then_absent(id: u32)
    ensures
        decode(id, Seq::empty()) == Ok::<Option<TaskView>, TaskError>(None),
        delete_result(0) == Err::<(), TaskError>(TaskError::NotFound),
{
}

/// The store's increments of the counter are serialised, each reply greater than
/// the one before; the ids they allocate are then strictly increasing, hence
/// pairwise distinct.
pub proof fn lemma_ids_increase(replies: Seq<int>)
    requires
        forall|i: int, j: int| 0 <= i < j < replies.len() ==> replies[i] < replies[j],
    ensures
        forall|i: int, j: int|
            0 <= i < j < replies.len() && (#[trigger] counter_id(replies[i])) is Ok && (
            #[trigger] counter_id(replies[j])) is Ok ==> counter_id(replies[i])->Ok_0
                < counter_id(replies[j])->Ok_0,
{
}

} // verus!
