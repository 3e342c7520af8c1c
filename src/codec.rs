//! The byte format of a store file.
//!
//! A store is written as the four bytes `TUSK`, the id counter as four
//! little-endian bytes, and then each task in order: its id as four
//! little-endian bytes, its status as one byte code, the length of its title
//! in UTF-8 as eight little-endian bytes, and the title's UTF-8 bytes.
use vstd::prelude::*;
use vstd::utf8::*;
use crate::status::{Status, status_code, status_of_code};
use crate::error::StoreError;
use crate::store::{Store, Task, TaskModel, StoreModel, well_formed, models, MAX_TASK_ID};
use vstd::arithmetic::div_mod::lemma_fundamental_div_mod;

verus! {

/// `256` raised to the power `n`.
pub open spec fn pow256(n: nat) -> nat
    decreases n,
{
    if n == 0 {
        1
    } else {
        256 * pow256((n - 1) as nat)
    }
}

/// The number that little-endian bytes stand for.
pub open spec fn le_value(b: Seq<u8>) -> nat
    decreases b.len(),
{
    if b.len() == 0 {
        0
    } else {
        b[0] as nat + 256 * le_value(b.drop_first())
    }
}

/// The `w` little-endian bytes of `x` (of `x` modulo `256` to the `w`).
pub open spec fn le_bytes(x: nat, w: nat) -> Seq<u8>
    decreases w,
{
    if w == 0 {
        seq![]
    } else {
        seq![(x % 256) as u8] + le_bytes(x / 256, (w - 1) as nat)
    }
}

proof fn lemma_pow256_positive(n: nat)
    ensures
        pow256(n) >= 1,
    decreases n,
{
    if n > 0 {
        lemma_pow256_positive((n - 1) as nat);
    }
}

/// Reading back the `w` bytes written for a number below `256` to the `w`
/// gives the number.
proof fn lemma_le_round_trip(x: nat, w: nat)
    requires
        x < pow256(w),
    ensures
        le_bytes(x, w).len() == w,
        le_value(le_bytes(x, w)) == x,
    decreases w,
{
    if w > 0 {
        lemma_fundamental_div_mod(x as int, 256);
        lemma_le_round_trip(x / 256, (w - 1) as nat);
        let b = le_bytes(x, w);
        assert(b.drop_first() =~= le_bytes(x / 256, (w - 1) as nat));
    }
}

/// Little-endian bytes stand for less than `256` to the power of their number.
proof fn lemma_le_value_bound(b: Seq<u8>)
    ensures
        le_value(b) < pow256(b.len()),
    decreases b.len(),
{
    if b.len() > 0 {
        lemma_le_value_bound(b.drop_first());
    }
}

/// Appends the `w` little-endian bytes of `x`.
fn write_le(out: &mut Vec<u8>, x: u64, w: usize)
    requires
        w <= 8,
        x < pow256(w as nat),
    ensures
        final(out)@ == old(out)@ + le_bytes(x as nat, w as nat),
{
    let mut v: u64 = x;
    let mut k: usize = 0;
    while k < w
        invariant
            k <= w,
            out@ + le_bytes(v as nat, (w - k) as nat) == old(out)@ + le_bytes(x as nat, w as nat),
        decreases w - k,
    {
        let ghost before = out@;
        assert(le_bytes(v as nat, (w - k) as nat) == seq![(v as nat % 256) as u8] + le_bytes(
            (v / 256) as nat,
            (w - k - 1) as nat,
        ));
        out.push((v % 256) as u8);
        assert(out@ + le_bytes((v / 256) as nat, (w - k - 1) as nat) =~= before + le_bytes(
            v as nat,
            (w - k) as nat,
        ));
        v = v / 256;
        k = k + 1;
    }
    assert(out@ =~= out@ + le_bytes(v as nat, 0));
}

/// The number that the `w` little-endian bytes at `pos` stand for.
fn read_le(b: &[u8], pos: usize, w: usize) -> (r: u64)
    requires
        w <= 8,
        pos + w <= b@.len(),
    ensures
        r as nat == le_value(b@.subrange(pos as int, pos + w)),
{
    proof {
        lemma_pow256_eight();
    }
    let n: usize = b.len();
    let mut acc: u64 = 0;
    let mut k: usize = w;
    while k > 0
        invariant
            k <= w <= 8,
            pos + w <= b@.len() == n,
            acc as nat == le_value(b@.subrange(pos + k, pos + w)),
            pow256(8) == 18446744073709551616,
        decreases k,
    {
        let ghost tail = b@.subrange(pos + k, pos + w);
        let ghost s = b@.subrange(pos + k - 1, pos + w);
        assert(s.drop_first() =~= tail);
        proof {
            lemma_le_value_bound(tail);
            lemma_pow_mono((w - k) as nat, 7);
        }
        acc = acc * 256 + b[pos + k - 1] as u64;
        k = k - 1;
    }
    acc
}

proof fn lemma_pow256_eight()
    ensures
        pow256(4) == 4294967296,
        pow256(8) == 18446744073709551616,
{
    reveal_with_fuel(pow256, 9);
}

proof fn lemma_pow_mono(a: nat, b: nat)
    requires
        a <= b,
    ensures
        pow256(a) <= pow256(b),
    decreases b,
{
    if a < b {
        lemma_pow_mono(a, (b - 1) as nat);
        lemma_pow256_positive((b - 1) as nat);
    }
}


/// The four bytes that open every store file: `TUSK`.
pub open spec fn magic() -> Seq<u8> {
    seq![84u8, 85u8, 83u8, 75u8]
}

/// The bytes of one task.
pub open spec fn task_bytes(t: TaskModel) -> Seq<u8> {
    le_bytes(t.id as nat, 4) + seq![status_code(t.status)] + le_bytes(
        encode_utf8(t.title).len(),
        8,
    ) + encode_utf8(t.title)
}

/// The bytes of a sequence of tasks, one after another.
pub open spec fn tasks_bytes(ts: Seq<TaskModel>) -> Seq<u8>
    decreases ts.len(),
{
    if ts.len() == 0 {
        seq![]
    } else {
        tasks_bytes(ts.drop_last()) + task_bytes(ts.last())
    }
}

/// The bytes of a store file.
pub open spec fn serialize(m: StoreModel) -> Seq<u8> {
    magic() + le_bytes(m.counter as nat, 4) + tasks_bytes(m.tasks)
}

/// Appends the bytes of `b`.
fn append_bytes(out: &mut Vec<u8>, b: &[u8])
    ensures
        final(out)@ == old(out)@ + b@,
{
    let mut j: usize = 0;
    while j < b.len()
        invariant
            j <= b@.len(),
            out@ == old(out)@ + b@.take(j as int),
        decreases b@.len() - j,
    {
        out.push(b[j]);
        assert(b@.take(j + 1) =~= b@.take(j as int).push(b@[j as int]));
        assert(out@ =~= old(out)@ + b@.take(j + 1));
        j = j + 1;
    }
    assert(b@.take(b@.len() as int) =~= b@);
}

/// Appends the bytes of one task.
fn encode_task(out: &mut Vec<u8>, t: &Task)
    requires
        1 <= t@.id,
    ensures
        final(out)@ == old(out)@ + task_bytes(t@),
        encode_utf8(t@.title).len() < pow256(8),
{
    proof {
        lemma_pow256_eight();
    }
    write_le(out, t.task_id() as u64, 4);
    out.push(t.status().code());
    let bytes = t.title().as_str().as_bytes();
    write_le(out, bytes.len() as u64, 8);
    append_bytes(out, bytes);
    assert(final(out)@ =~= old(out)@ + task_bytes(t@));
}

/// The bytes of a store file holding this store.
pub fn encode(store: &Store) -> (r: Vec<u8>)
    requires
        well_formed(store@),
    ensures
        r@ == serialize(store@),
        parse(r@) == Some(store@),
{
    proof {
        lemma_pow256_eight();
    }
    let mut out: Vec<u8> = Vec::new();
    out.push(84u8);
    out.push(85u8);
    out.push(83u8);
    out.push(75u8);
    write_le(&mut out, store.counter() as u64, 4);
    let ghost head = out@;
    let mut i: usize = 0;
    while i < store.len()
        invariant
            i <= store@.tasks.len(),
            well_formed(store@),
            out@ == head + tasks_bytes(store@.tasks.take(i as int)),
            forall|j: int| 0 <= j < i ==> #[trigger] encode_utf8(store@.tasks[j].title).len() < pow256(8),
        decreases store@.tasks.len() - i,
    {
        let t = store.task_at(i);
        assert(store@.tasks.take(i + 1).drop_last() =~= store@.tasks.take(i as int));
        assert(store@.tasks[i as int].id >= 1);
        encode_task(&mut out, t);
        assert(out@ =~= head + tasks_bytes(store@.tasks.take(i + 1)));
        i = i + 1;
    }
    assert(store@.tasks.take(store@.tasks.len() as int) =~= store@.tasks);
    assert(head =~= magic() + le_bytes(store@.counter as nat, 4));
    proof {
        lemma_round_trip(store@);
    }
    out
}


/// The title length recorded in the task bytes at the front of `b`.
pub open spec fn title_len(b: Seq<u8>) -> int {
    le_value(b.subrange(5, 13)) as int
}

/// The task whose bytes stand at the front of `b`, given that `b` is long
/// enough to hold them: `None` when the status code or the title is invalid.
pub open spec fn front_task(b: Seq<u8>) -> Option<TaskModel> {
    let tb = b.subrange(13, 13 + title_len(b));
    match status_of_code(b[4]) {
        Some(st) => if valid_utf8(tb) {
            Some(TaskModel { id: le_value(b.subrange(0, 4)) as int, status: st, title: decode_utf8(tb) })
        } else {
            None
        },
        None => None,
    }
}

/// The tasks that `b` holds, one after another to its end; `None` when `b`
/// is not such a sequence.
pub open spec fn parse_tasks(b: Seq<u8>) -> Option<Seq<TaskModel>>
    decreases b.len(),
{
    if b.len() == 0 {
        Some(seq![])
    } else if b.len() < 13 + title_len(b) {
        None
    } else {
        match front_task(b) {
            Some(t) => match parse_tasks(b.subrange(13 + title_len(b), b.len() as int)) {
                Some(ts) => Some(seq![t] + ts),
                None => None,
            },
            None => None,
        }
    }
}

/// The store that a file's bytes hold, before any check of well-formedness;
/// `None` when the bytes do not follow the format.
pub open spec fn parse(b: Seq<u8>) -> Option<StoreModel> {
    if b.len() < 8 || b.subrange(0, 4) != magic() {
        None
    } else {
        match parse_tasks(b.subrange(8, b.len() as int)) {
            Some(ts) => Some(StoreModel { tasks: ts, counter: le_value(b.subrange(4, 8)) as int }),
            None => None,
        }
    }
}

/// Relies on std's String::from_utf8: it succeeds exactly when the bytes
/// are valid UTF-8, and the string then holds the characters they encode.
#[verifier::external_body]
fn utf8_text(b: Vec<u8>) -> (r: Option<String>)
    ensures
        r is Some <==> valid_utf8(b@),
        r matches Some(s) ==> s@ == decode_utf8(b@),
{
    String::from_utf8(b).ok()
}

/// A copy of the bytes of `b` from `start` up to `end`.
fn copy_range(b: &[u8], start: usize, end: usize) -> (r: Vec<u8>)
    requires
        start <= end <= b@.len(),
    ensures
        r@ == b@.subrange(start as int, end as int),
{
    let mut out: Vec<u8> = Vec::new();
    let mut j: usize = start;
    while j < end
        invariant
            start <= j <= end <= b@.len(),
            out@ == b@.subrange(start as int, j as int),
        decreases end - j,
    {
        out.push(b[j]);
        assert(out@ =~= b@.subrange(start as int, j + 1));
        j = j + 1;
    }
    out
}

/// Whether `b` starts with the four bytes of `magic`.
fn has_magic(b: &[u8]) -> (r: bool)
    requires
        b@.len() >= 4,
    ensures
        r == (b@.subrange(0, 4) == magic()),
{
    let ok = b[0] == 84u8 && b[1] == 85u8 && b[2] == 83u8 && b[3] == 75u8;
    if !ok {
        assert(b@.subrange(0, 4) != magic()) by {
            if b@.subrange(0, 4) == magic() {
                assert(b@.subrange(0, 4)[0] == b@[0]);
                assert(b@.subrange(0, 4)[1] == b@[1]);
                assert(b@.subrange(0, 4)[2] == b@[2]);
                assert(b@.subrange(0, 4)[3] == b@[3]);
            }
        }
    } else {
        assert(b@.subrange(0, 4) =~= magic());
    }
    ok
}

/// Whether the ids of these tasks are positive, strictly increasing and at
/// most the counter, as in a well-formed store.
pub open spec fn ids_ordered(ts: Seq<TaskModel>, counter: int) -> bool {
    &&& forall|i: int| 0 <= i < ts.len() ==> 1 <= #[trigger] ts[i].id <= counter
    &&& forall|i: int, j: int| 0 <= i < j < ts.len() ==> #[trigger] ts[i].id < #[trigger] ts[j].id
}

/// The store that a store file's bytes hold. Fails with `StoreCorrupt` when
/// the bytes do not follow the format or the store they hold is not well
/// formed.
pub fn decode(b: &[u8]) -> (r: Result<Store, StoreError>)
    ensures
        match parse(b@) {
            Some(m) => if well_formed(m) {
                r matches Ok(s) && s@ == m
            } else {
                r == Err::<Store, StoreError>(StoreError::StoreCorrupt)
            },
            None => r == Err::<Store, StoreError>(StoreError::StoreCorrupt),
        },
        r matches Ok(s) ==> well_formed(s@),
{
    let n: usize = b.len();
    if n < 8 || !has_magic(b) {
        return Err(StoreError::StoreCorrupt);
    }
    let counter64 = read_le(b, 4, 4);
    if counter64 > MAX_TASK_ID as u64 {
        return Err(StoreError::StoreCorrupt);
    }
    let counter = counter64 as i32;
    let ghost all = b@.subrange(8, n as int);
    let mut tasks: Vec<Task> = Vec::new();
    let mut last: i32 = 0;
    let mut pos: usize = 8;
    while pos < n
        invariant
            8 <= pos <= n == b@.len(),
            all == b@.subrange(8, n as int),
            b@.subrange(0, 4) == magic(),
            0 <= counter <= MAX_TASK_ID,
            counter as nat == le_value(b@.subrange(4, 8)),
            ids_ordered(models(tasks@), counter as int),
            last == 0 <==> tasks@.len() == 0,
            tasks@.len() > 0 ==> last as int == models(tasks@).last().id,
            0 <= last,
            parse_tasks(all) == match parse_tasks(b@.subrange(pos as int, n as int)) {
                Some(tail) => Some(models(tasks@) + tail),
                None => None::<Seq<TaskModel>>,
            },
        decreases n - pos,
    {
        let ghost rest = b@.subrange(pos as int, n as int);
        if n - pos < 13 {
            return Err(StoreError::StoreCorrupt);
        }
        assert(rest.subrange(0, 4) =~= b@.subrange(pos as int, pos + 4));
        assert(rest.subrange(5, 13) =~= b@.subrange(pos + 5, pos + 13));
        let id64 = read_le(b, pos, 4);
        let len = read_le(b, pos + 5, 8);
        if len > (n - pos - 13) as u64 {
            return Err(StoreError::StoreCorrupt);
        }
        let end = pos + 13 + len as usize;
        assert(rest.subrange(13, 13 + title_len(rest)) =~= b@.subrange(pos + 13, end as int));
        assert(rest[4] == b@[pos + 4]);
        let status = match Status::from_code(b[pos + 4]) {
            Some(s) => s,
            None => {
                return Err(StoreError::StoreCorrupt);
            },
        };
        let title = match utf8_text(copy_range(b, pos + 13, end)) {
            Some(t) => t,
            None => {
                return Err(StoreError::StoreCorrupt);
            },
        };
        let ghost t = front_task(rest)->Some_0;
        assert(rest.subrange(13 + title_len(rest), rest.len() as int) =~= b@.subrange(
            end as int,
            n as int,
        ));
        if id64 <= last as u64 || id64 > counter as u64 {
            proof {
                let k = tasks@.len() as int;
                match parse_tasks(b@.subrange(end as int, n as int)) {
                    Some(tail) => {
                        let full = models(tasks@) + (seq![t] + tail);
                        assert(parse_tasks(rest) == Some(seq![t] + tail));
                        assert(parse_tasks(all) == Some(full));
                        assert(full[k] == t);
                        assert(t.id == id64 as int);
                        if k > 0 {
                            assert(full[k - 1] == models(tasks@).last());
                        }
                        assert(b@.subrange(0, 4) == magic());
                        let m = StoreModel { tasks: full, counter: counter as int };
                        assert(parse(b@) == Some(m));
                        if well_formed(m) {
                            assert(1 <= m.tasks[k].id <= m.counter);
                            if k > 0 {
                                assert(m.tasks[k - 1].id < m.tasks[k].id);
                            }
                        }
                    },
                    None => {},
                }
            }
            return Err(StoreError::StoreCorrupt);
        }
        let ghost before = models(tasks@);
        tasks.push(Task::from_parts(id64 as i32, status, title));
        assert(models(tasks@) =~= before.push(t));
        proof {
            match parse_tasks(b@.subrange(end as int, n as int)) {
                Some(tail) => {
                    assert(before + (seq![t] + tail) =~= before.push(t) + tail);
                },
                None => {},
            }
        }
        last = id64 as i32;
        pos = end;
    }
    assert(b@.subrange(n as int, n as int) =~= Seq::<u8>::empty());
    assert(models(tasks@) + Seq::<TaskModel>::empty() =~= models(tasks@));
    Ok(Store::from_parts(tasks, counter))
}


/// Whether the UTF-8 encoding of every title's length fits the eight bytes
/// that record it (true of every title a `String` holds).
pub open spec fn titles_fit(ts: Seq<TaskModel>) -> bool {
    forall|i: int| 0 <= i < ts.len() ==> #[trigger] encode_utf8(ts[i].title).len() < pow256(8)
}

proof fn lemma_tasks_bytes_prepend(t: TaskModel, ts: Seq<TaskModel>)
    ensures
        tasks_bytes(seq![t] + ts) == task_bytes(t) + tasks_bytes(ts),
    decreases ts.len(),
{
    let s = seq![t] + ts;
    if ts.len() == 0 {
        assert(s.drop_last() =~= Seq::<TaskModel>::empty());
        assert(s.last() == t);
        assert(tasks_bytes(s) == tasks_bytes(s.drop_last()) + task_bytes(t));
        assert(tasks_bytes(s) =~= task_bytes(t) + tasks_bytes(ts));
    } else {
        assert(s.drop_last() =~= seq![t] + ts.drop_last());
        lemma_tasks_bytes_prepend(t, ts.drop_last());
        assert(s.last() == ts.last());
        assert(tasks_bytes(s) == tasks_bytes(seq![t] + ts.drop_last()) + task_bytes(ts.last()));
        assert(tasks_bytes(ts) == tasks_bytes(ts.drop_last()) + task_bytes(ts.last()));
        assert(tasks_bytes(s) =~= task_bytes(t) + tasks_bytes(ts));
    }
}

proof fn lemma_parse_front(t: TaskModel, rest: Seq<u8>)
    requires
        0 <= t.id < pow256(4),
        encode_utf8(t.title).len() < pow256(8),
    ensures
        ({
            let b = task_bytes(t) + rest;
            &&& b.len() >= 13 + title_len(b)
            &&& title_len(b) == encode_utf8(t.title).len()
            &&& front_task(b) == Some(t)
            &&& b.subrange(13 + title_len(b), b.len() as int) == rest
        }),
{
    let b = task_bytes(t) + rest;
    let e = encode_utf8(t.title);
    lemma_le_round_trip(t.id as nat, 4);
    lemma_le_round_trip(e.len(), 8);
    assert(b.subrange(0, 4) =~= le_bytes(t.id as nat, 4));
    assert(b.subrange(5, 13) =~= le_bytes(e.len(), 8));
    assert(b[4] == status_code(t.status));
    assert(b.subrange(13, 13 + e.len() as int) =~= e);
    assert(b.subrange(13 + e.len() as int, b.len() as int) =~= rest);
    encode_utf8_valid_utf8(t.title);
    encode_utf8_decode_utf8(t.title);
}

proof fn lemma_parse_tasks_round_trip(ts: Seq<TaskModel>)
    requires
        forall|i: int| 0 <= i < ts.len() ==> 0 <= #[trigger] ts[i].id < pow256(4),
        titles_fit(ts),
    ensures
        parse_tasks(tasks_bytes(ts)) == Some(ts),
    decreases ts.len(),
{
    if ts.len() == 0 {
        assert(tasks_bytes(ts) =~= Seq::<u8>::empty());
    } else {
        let t = ts[0];
        let more = ts.drop_first();
        assert(ts =~= seq![t] + more);
        lemma_tasks_bytes_prepend(t, more);
        assert(encode_utf8(ts[0].title).len() < pow256(8));
        lemma_parse_front(t, tasks_bytes(more));
        assert forall|i: int| 0 <= i < more.len() implies 0 <= #[trigger] more[i].id < pow256(4) by {
            assert(more[i] == ts[i + 1]);
        }
        assert forall|i: int| 0 <= i < more.len() implies #[trigger] encode_utf8(more[i].title).len()
            < pow256(8) by {
            assert(more[i] == ts[i + 1]);
        }
        lemma_parse_tasks_round_trip(more);
        let b = tasks_bytes(ts);
        assert(b.len() > 0);
    }
}

/// Writing a well-formed store and reading the bytes back gives the same
/// tasks, in the same order, and the same id counter.
pub proof fn lemma_round_trip(m: StoreModel)
    requires
        well_formed(m),
        titles_fit(m.tasks),
    ensures
        parse(serialize(m)) == Some(m),
{
    lemma_pow256_eight();
    let b = serialize(m);
    lemma_le_round_trip(m.counter as nat, 4);
    assert(b.subrange(0, 4) =~= magic());
    assert(b.subrange(4, 8) =~= le_bytes(m.counter as nat, 4));
    assert(b.subrange(8, b.len() as int) =~= tasks_bytes(m.tasks));
    assert forall|i: int| 0 <= i < m.tasks.len() implies 0 <= #[trigger] m.tasks[i].id < pow256(4) by {
        assert(m.tasks[i].id <= m.counter);
    }
    lemma_parse_tasks_round_trip(m.tasks);
}

} // verus!
