use vstd::prelude::*;

verus! {

/// Runs `ops` on a buffer whose contents are `q`, where `Some(v)` writes `v`
/// and `None` reads: the contents afterwards, and the elements read, in the
/// order they came out.
pub open spec fn replay<T>(q: Seq<T>, ops: Seq<Option<T>>) -> (Seq<T>, Seq<T>)
    decreases ops.len(),
{
    if ops.len() == 0 {
        (q, Seq::empty())
    } else {
        let (c, o) = replay(q, ops.drop_last());
        match ops.last() {
            Some(v) => (c.push(v), o),
            None => (c.drop_first(), o.push(c[0])),
        }
    }
}

/// Every write of `ops` finds a free slot among `capacity`, and every read
/// finds an element.
pub open spec fn replay_fits<T>(q: Seq<T>, ops: Seq<Option<T>>, capacity: nat) -> bool
    decreases ops.len(),
{
    if ops.len() == 0 {
        q.len() <= capacity
    } else {
        &&& replay_fits(q, ops.drop_last(), capacity)
        &&& match ops.last() {
            Some(_) => replay(q, ops.drop_last()).0.len() < capacity,
            None => replay(q, ops.drop_last()).0.len() > 0,
        }
    }
}

/// The values that `ops` writes, in order.
pub open spec fn written<T>(ops: Seq<Option<T>>) -> Seq<T>
    decreases ops.len(),
{
    if ops.len() == 0 {
        Seq::empty()
    } else {
        match ops.last() {
            Some(v) => written(ops.drop_last()).push(v),
            None => written(ops.drop_last()),
        }
    }
}

/// The operations that write `vals`, in order.
pub open spec fn writes_of<T>(vals: Seq<T>) -> Seq<Option<T>> {
    vals.map_values(|v: T| Some(v))
}

/// `n` reads.
pub open spec fn reads_of<T>(n: nat) -> Seq<Option<T>> {
    Seq::new(n, |i: int| None::<T>)
}

/// First in, first out: over any run of writes and reads that stays within
/// the capacity, the elements read followed by those still stored are the
/// elements stored at the start followed by those written.
pub proof fn lemma_fifo<T>(q: Seq<T>, ops: Seq<Option<T>>, capacity: nat)
    requires
        replay_fits(q, ops, capacity),
    ensures
        replay(q, ops).1 + replay(q, ops).0 == q + written(ops),
    decreases ops.len(),
{
    if ops.len() > 0 {
        let prev = ops.drop_last();
        lemma_fifo(q, prev, capacity);
        let (c, o) = replay(q, prev);
        match ops.last() {
            Some(v) => {
                assert(o + c.push(v) =~= (o + c).push(v));
                assert(q + written(prev).push(v) =~= (q + written(prev)).push(v));
            },
            None => {
                assert(o.push(c[0]) + c.drop_first() =~= o + c);
            },
        }
    }
}

/// Writing `vals` onto contents `q` and then nothing else leaves `q + vals`
/// stored and reads nothing.
proof fn lemma_replay_writes<T>(q: Seq<T>, vals: Seq<T>)
    ensures
        replay(q, writes_of(vals)) == (q + vals, Seq::<T>::empty()),
    decreases vals.len(),
{
    if vals.len() == 0 {
        assert(q + vals =~= q);
    } else {
        let prev = vals.drop_last();
        lemma_replay_writes(q, prev);
        assert(writes_of(vals).drop_last() =~= writes_of(prev));
        assert(q + vals =~= (q + prev).push(vals.last()));
    }
}

/// `n` reads after `ops` take the `n` oldest of what `ops` left stored.
proof fn lemma_replay_reads<T>(q: Seq<T>, ops: Seq<Option<T>>, n: nat)
    requires
        n <= replay(q, ops).0.len(),
    ensures
        replay(q, ops + reads_of(n)) == (
            replay(q, ops).0.skip(n as int),
            replay(q, ops).1 + replay(q, ops).0.take(n as int),
        ),
    decreases n,
{
    let (c, o) = replay(q, ops);
    if n == 0 {
        assert(ops + reads_of(n) =~= ops);
        assert(c.skip(0) =~= c);
        assert(o + c.take(0) =~= o);
    } else {
        lemma_replay_reads(q, ops, (n - 1) as nat);
        assert((ops + reads_of(n)).drop_last() =~= ops + reads_of::<T>((n - 1) as nat));
        assert(c.skip(n - 1).drop_first() =~= c.skip(n as int));
        assert((o + c.take(n - 1)).push(c.skip(n - 1)[0]) =~= o + c.take(n as int));
    }
}

/// Round trip: on an empty buffer of `capacity` slots, writing `capacity`
/// elements and then reading `capacity` elements gives them back in the
/// order written and leaves the buffer empty.
pub proof fn lemma_round_trip<T>(vals: Seq<T>, capacity: nat)
    requires
        vals.len() == capacity,
    ensures
        replay_fits(Seq::<T>::empty(), writes_of(vals) + reads_of(capacity), capacity),
        replay(Seq::<T>::empty(), writes_of(vals) + reads_of(capacity)) == (
            Seq::<T>::empty(),
            vals,
        ),
{
    let e = Seq::<T>::empty();
    lemma_replay_writes(e, vals);
    lemma_replay_reads(e, writes_of(vals), capacity);
    assert(e + vals =~= vals);
    assert(vals.skip(capacity as int) =~= e);
    assert(e + vals.take(capacity as int) =~= vals);
    lemma_fits_writes(vals, vals.len());
    lemma_fits_reads(e, writes_of(vals), capacity, capacity);
}

/// Writing a prefix of `vals` onto an empty buffer stays within `capacity`.
proof fn lemma_fits_writes<T>(vals: Seq<T>, capacity: nat)
    requires
        vals.len() <= capacity,
    ensures
        replay_fits(Seq::<T>::empty(), writes_of(vals), capacity),
    decreases vals.len(),
{
    let e = Seq::<T>::empty();
    if vals.len() > 0 {
        let prev = vals.drop_last();
        lemma_fits_writes(prev, capacity);
        lemma_replay_writes(e, prev);
        assert(writes_of(vals).drop_last() =~= writes_of(prev));
    }
}

/// `n` reads after a run that fits, and leaves at least `n` stored, fit too.
proof fn lemma_fits_reads<T>(q: Seq<T>, ops: Seq<Option<T>>, n: nat, capacity: nat)
    requires
        replay_fits(q, ops, capacity),
        n <= replay(q, ops).0.len(),
    ensures
        replay_fits(q, ops + reads_of(n), capacity),
    decreases n,
{
    if n == 0 {
        assert(ops + reads_of(n) =~= ops);
    } else {
        lemma_fits_reads(q, ops, (n - 1) as nat, capacity);
        lemma_replay_reads(q, ops, (n - 1) as nat);
        assert((ops + reads_of(n)).drop_last() =~= ops + reads_of::<T>((n - 1) as nat));
    }
}

} // verus!
