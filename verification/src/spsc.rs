//! Single-producer, single-consumer rings, and the mesh of them that makes an
//! edge between two scaled-out stages.
//!
//! A [`Swsr`] is a bounded ring with one writer and one reader. An
//! [`SpscMesh`] joins every producer to every consumer by a ring of its own:
//! producer `i` takes turns over the columns of its row, consumer `j` takes
//! turns over the rows of its column, and no ring ever has two writers or two
//! readers.

use vstd::prelude::*;
use bytes::Bytes;
use crate::inproc::{Backoff, Edge, PopStep, PushStep};

verus! {

/// `i` reduced into a ring of `size` slots, for an `i` of less than two laps.
pub open spec fn wrap(i: int, size: int) -> int {
    if i >= size {
        i - size
    } else {
        i
    }
}

/// Bounded ring with one producer and one consumer.
pub struct Swsr {
    slots: Vec<Option<Bytes>>,
    pwrite: usize,
    pread: usize,
    queue: Ghost<Seq<Bytes>>,
}

impl View for Swsr {
    type V = Seq<Bytes>;

    /// What the ring holds, oldest first.
    closed spec fn view(&self) -> Seq<Bytes> {
        self.queue@
    }
}

impl Swsr {
    /// The number of slots.
    pub closed spec fn size(&self) -> nat {
        self.slots@.len()
    }

    /// The full slots are those from the read index on, as many as the ring
    /// holds, and the write index stands behind them.
    pub closed spec fn wf(&self) -> bool {
        let size = self.slots@.len() as int;
        &&& 1 <= size <= usize::MAX
        &&& self.queue@.len() <= size
        &&& self.pread < size
        &&& self.pwrite == wrap(self.pread + self.queue@.len(), size)
        &&& forall|k: int|
            0 <= k < size ==> #[trigger] self.slots@[wrap(self.pread + k, size)] == if k
                < self.queue@.len() {
                Some(self.queue@[k])
            } else {
                None::<Bytes>
            }
    }

    /// A well-formed ring has a slot at least and holds no more than its slots.
    pub proof fn lemma_bounds(&self)
        requires
            self.wf(),
        ensures
            self@.len() <= self.size(),
            1 <= self.size() <= usize::MAX,
    {
    }

    pub fn new(size: usize) -> (ring: Swsr)
        requires
            size >= 1,
        ensures
            ring.wf(),
            ring@ == Seq::<Bytes>::empty(),
            ring.size() == size,
    {
        let mut slots: Vec<Option<Bytes>> = Vec::new();
        let mut i: usize = 0;
        while i < size
            invariant
                i <= size,
                slots@.len() == i,
                forall|k: int| 0 <= k < i ==> slots@[k] == None::<Bytes>,
            decreases size - i,
        {
            slots.push(None);
            i = i + 1;
        }
        Swsr { slots, pwrite: 0, pread: 0, queue: Ghost(Seq::empty()) }
    }

    fn next(&self, i: usize) -> (n: usize)
        requires
            i < self.slots@.len(),
        ensures
            n == wrap(i + 1, self.slots@.len() as int),
    {
        if i >= self.slots.len() - 1 {
            0
        } else {
            i + 1
        }
    }

    /// How many items the ring holds, told by the two indices and by whether the
    /// next slot to write is taken.
    pub fn len(&self) -> (n: usize)
        requires
            self.wf(),
        ensures
            n == self@.len(),
    {
        let size: usize = self.slots.len();
        if self.slots[self.pwrite].is_some() {
            assert(self.slots@[wrap(self.pread + self.queue@.len(), size as int)] is Some);
            size
        } else if self.pwrite >= self.pread {
            assert(self.slots@[wrap(self.pread + 0, size as int)] == self.slots@[self.pread as int]);
            self.pwrite - self.pread
        } else {
            size - self.pread + self.pwrite
        }
    }

    /// Producer side. `Err` hands the item back from a full ring.
    pub fn push(&mut self, item: Bytes) -> (r: Result<(), Bytes>)
        requires
            old(self).wf(),
        ensures
            final(self).wf(),
            final(self).size() == old(self).size(),
            r is Ok <==> old(self)@.len() < old(self).size(),
            r is Ok ==> final(self)@ == old(self)@.push(item),
            r matches Err(back) ==> back == item && final(self)@ == old(self)@,
    {
        let w: usize = self.pwrite;
        let ghost size = self.slots@.len() as int;
        let ghost n = self.queue@.len() as int;
        if self.slots[w].is_some() {
            assert(n == size) by {
                if n < size {
                    assert(self.slots@[wrap(self.pread + n, size)] == None::<Bytes>);
                }
            }
            return Err(item);
        }
        assert(n < size) by {
            if n == size {
                assert(self.slots@[wrap(self.pread + 0, size)] is Some);
            }
        }
        self.slots.set(w, Some(item));
        self.pwrite = self.next(w);
        self.queue = Ghost(self.queue@.push(item));
        assert(self.wf()) by {
            assert forall|k: int| 0 <= k < size implies #[trigger] self.slots@[wrap(
                self.pread + k,
                size,
            )] == if k < self.queue@.len() {
                Some(self.queue@[k])
            } else {
                None::<Bytes>
            } by {
                assert(old(self).slots@[wrap(old(self).pread + k, size)] == if k < n {
                    Some(old(self).queue@[k])
                } else {
                    None::<Bytes>
                });
            }
        }
        Ok(())
    }

    /// Consumer side. `None` where the ring is empty.
    pub fn pop(&mut self) -> (r: Option<Bytes>)
        requires
            old(self).wf(),
        ensures
            final(self).wf(),
            final(self).size() == old(self).size(),
            r is Some <==> old(self)@.len() > 0,
            r matches Some(item) ==> item == old(self)@[0] && final(self)@
                == old(self)@.drop_first(),
            r is None ==> final(self)@ == old(self)@,
    {
        let at: usize = self.pread;
        let ghost size = self.slots@.len() as int;
        assert(self.slots@[wrap(self.pread + 0, size)] == if 0 < self.queue@.len() {
            Some(self.queue@[0])
        } else {
            None::<Bytes>
        });
        let mut taken: Option<Bytes> = None;
        core::mem::swap(&mut taken, &mut self.slots[at]);
        match taken {
            None => {
                assert(self.slots@ =~= old(self).slots@);
                None
            },
            Some(item) => {
                self.pread = self.next(at);
                self.queue = Ghost(self.queue@.drop_first());
                assert(self.wf()) by {
                    assert forall|k: int| 0 <= k < size implies #[trigger] self.slots@[wrap(
                        self.pread + k,
                        size,
                    )] == if k < self.queue@.len() {
                        Some(self.queue@[k])
                    } else {
                        None::<Bytes>
                    } by {
                        if k + 1 < size {
                            assert(old(self).slots@[wrap(old(self).pread + (k + 1), size)] == if k
                                + 1 < old(self).queue@.len() {
                                Some(old(self).queue@[k + 1])
                            } else {
                                None::<Bytes>
                            });
                            assert(wrap(self.pread + k, size) == wrap(
                                old(self).pread + (k + 1),
                                size,
                            ));
                        }
                    }
                }
                Some(item)
            },
        }
    }
}

/// How many of the flags are raised.
pub open spec fn count_true(flags: Seq<bool>) -> nat
    decreases flags.len(),
{
    if flags.len() == 0 {
        0
    } else {
        count_true(flags.drop_last()) + if flags.last() {
            1nat
        } else {
            0nat
        }
    }
}

/// How many items the rings of one row hold together.
pub open spec fn row_total(row: Seq<Seq<Bytes>>) -> nat
    decreases row.len(),
{
    if row.len() == 0 {
        0
    } else {
        row_total(row.drop_last()) + row.last().len()
    }
}

/// How many items all rows hold together.
pub open spec fn mesh_total(rows: Seq<Seq<Seq<Bytes>>>) -> nat
    decreases rows.len(),
{
    if rows.len() == 0 {
        0
    } else {
        mesh_total(rows.drop_last()) + row_total(rows.last())
    }
}

/// What a mesh is, as far as its users can tell.
pub struct MeshState {
    /// What producer `i` has sent consumer `j` and `j` has not taken yet:
    /// `rows[i][j]`, oldest first.
    pub rows: Seq<Seq<Seq<Bytes>>>,
    /// The slots of each ring.
    pub ring_cap: nat,
    /// The column each producer tries first.
    pub prod_cursor: Seq<int>,
    /// The row each consumer polls first.
    pub cons_cursor: Seq<int>,
    /// The columns that accept nothing.
    pub closed: Seq<bool>,
    /// The producers that wait for room.
    pub blocked: Seq<bool>,
}

impl MeshState {
    pub open spec fn n_prod(self) -> nat {
        self.rows.len()
    }

    pub open spec fn n_cons(self) -> nat {
        self.closed.len()
    }

    /// Dimensions agree, cursors point into them, and no ring is overfull.
    pub open spec fn wf(self) -> bool {
        &&& self.n_prod() >= 1
        &&& self.n_cons() >= 1
        &&& self.ring_cap >= 1
        &&& self.prod_cursor.len() == self.n_prod()
        &&& self.cons_cursor.len() == self.n_cons()
        &&& self.blocked.len() == self.n_prod()
        &&& forall|i: int|
            0 <= i < self.n_prod() ==> #[trigger] self.rows[i].len() == self.n_cons()
        &&& forall|i: int, j: int|
            0 <= i < self.n_prod() && 0 <= j < self.n_cons() ==> #[trigger] self.rows[i][j].len()
                <= self.ring_cap
        &&& forall|i: int|
            0 <= i < self.n_prod() ==> 0 <= #[trigger] self.prod_cursor[i] < self.n_cons()
        &&& forall|j: int|
            0 <= j < self.n_cons() ==> 0 <= #[trigger] self.cons_cursor[j] < self.n_prod()
    }

    /// The column that producer `i` tries as its `k`-th.
    pub open spec fn column_tried(self, i: int, k: int) -> int {
        wrap(self.prod_cursor[i] + k, self.n_cons() as int)
    }

    /// The row that consumer `j` polls as its `k`-th.
    pub open spec fn row_polled(self, j: int, k: int) -> int {
        wrap(self.cons_cursor[j] + k, self.n_prod() as int)
    }

    /// Whether column `j` would take an item of producer `i`.
    pub open spec fn accepts(self, i: int, j: int) -> bool {
        !self.closed[j] && self.rows[i][j].len() < self.ring_cap
    }

    /// Column `j` is the first, in producer `i`'s turn, that takes an item.
    pub open spec fn first_accepting(self, i: int, j: int) -> bool {
        exists|k: int|
            0 <= k < self.n_cons() && #[trigger] self.column_tried(i, k) == j && self.accepts(i, j)
                && forall|h: int|
                0 <= h < k ==> !self.accepts(i, #[trigger] self.column_tried(i, h))
    }

    /// No column takes an item of producer `i`.
    pub open spec fn backpressure(self, i: int) -> bool {
        forall|j: int| 0 <= j < self.n_cons() ==> !#[trigger] self.accepts(i, j)
    }

    /// The mesh after producer `i` sent `item` to consumer `j`.
    pub open spec fn after_push(self, i: int, j: int, item: Bytes) -> MeshState {
        MeshState {
            rows: self.rows.update(i, self.rows[i].update(j, self.rows[i][j].push(item))),
            prod_cursor: self.prod_cursor.update(i, wrap(j + 1, self.n_cons() as int)),
            ..self
        }
    }

    /// Row `i` is the first, in consumer `j`'s turn, that holds an item.
    pub open spec fn first_holding(self, i: int, j: int) -> bool {
        exists|k: int|
            0 <= k < self.n_prod() && #[trigger] self.row_polled(j, k) == i && self.rows[i][j].len()
                > 0 && forall|h: int|
                0 <= h < k ==> self.rows[#[trigger] self.row_polled(j, h)][j].len() == 0
    }

    /// Nothing waits for consumer `j`.
    pub open spec fn column_empty(self, j: int) -> bool {
        forall|i: int| 0 <= i < self.n_prod() ==> #[trigger] self.rows[i][j].len() == 0
    }

    /// Everything the rings hold, plus the producers that wait for room.
    pub open spec fn depth(self) -> nat {
        mesh_total(self.rows) + count_true(self.blocked)
    }

    /// The mesh after consumer `j` took the oldest item of producer `i`.
    pub open spec fn after_pop(self, i: int, j: int) -> MeshState {
        MeshState {
            rows: self.rows.update(i, self.rows[i].update(j, self.rows[i][j].drop_first())),
            cons_cursor: self.cons_cursor.update(j, wrap(i + 1, self.n_prod() as int)),
            ..self
        }
    }
}

/// An edge from many producers to many consumers.
pub struct SpscMesh {
    rows: Vec<Vec<Swsr>>,
    ring_cap: usize,
    prod_cursor: Vec<usize>,
    cons_cursor: Vec<usize>,
    closed: Vec<bool>,
    blocked: Vec<bool>,
}

impl View for SpscMesh {
    type V = MeshState;

    closed spec fn view(&self) -> MeshState {
        MeshState {
            rows: self.rows@.map_values(|row: Vec<Swsr>| row@.map_values(|ring: Swsr| ring@)),
            ring_cap: self.ring_cap as nat,
            prod_cursor: self.prod_cursor@.map_values(|c: usize| c as int),
            cons_cursor: self.cons_cursor@.map_values(|c: usize| c as int),
            closed: self.closed@,
            blocked: self.blocked@,
        }
    }
}

impl SpscMesh {
    pub closed spec fn wf(&self) -> bool {
        &&& self@.wf()
        &&& self.rows@.len() <= usize::MAX
        &&& self.closed@.len() <= usize::MAX
        &&& forall|i: int, j: int|
            0 <= i < self.rows@.len() && 0 <= j < self.closed@.len() ==> {
                &&& #[trigger] self.rows@[i]@[j].wf()
                &&& self.rows@[i]@[j].size() == self.ring_cap
            }
        &&& (self.rows@.len() * self.closed@.len()) * self.ring_cap + self.rows@.len() <= usize::MAX
    }

    /// A well-formed mesh is one whose state is.
    pub proof fn lemma_state(&self)
        requires
            self.wf(),
        ensures
            self@.wf(),
    {
    }

    /// A mesh that differs from a well-formed one in a single ring and the
    /// cursors is well-formed, if that ring and the cursors are.
    proof fn lemma_kept(&self, next: &SpscMesh, i0: int, j0: int)
        requires
            self.wf(),
            0 <= i0 < self.rows@.len(),
            0 <= j0 < self.closed@.len(),
            next.rows@.len() == self.rows@.len(),
            forall|i: int| 0 <= i < self.rows@.len() && i != i0 ==> next.rows@[i] == self.rows@[i],
            next.rows@[i0]@.len() == self.closed@.len(),
            forall|j: int|
                0 <= j < self.closed@.len() && j != j0 ==> next.rows@[i0]@[j] == self.rows@[i0]@[j],
            next.rows@[i0]@[j0].wf(),
            next.rows@[i0]@[j0].size() == self.ring_cap,
            next.ring_cap == self.ring_cap,
            next.closed@.len() == self.closed@.len(),
            next.blocked@.len() == self.blocked@.len(),
            next.prod_cursor@.len() == self.prod_cursor@.len(),
            next.cons_cursor@.len() == self.cons_cursor@.len(),
            forall|i: int|
                0 <= i < next.prod_cursor@.len() ==> next.prod_cursor@[i] == self.prod_cursor@[i]
                    || 0 <= next.prod_cursor@[i] < self.closed@.len(),
            forall|j: int|
                0 <= j < next.cons_cursor@.len() ==> next.cons_cursor@[j] == self.cons_cursor@[j]
                    || 0 <= next.cons_cursor@[j] < self.rows@.len(),
        ensures
            next.wf(),
    {
        let was = self@;
        let now = next@;
        assert forall|i: int, j: int|
            0 <= i < next.rows@.len() && 0 <= j < next.closed@.len() implies {
            &&& #[trigger] next.rows@[i]@[j].wf()
            &&& next.rows@[i]@[j].size() == next.ring_cap
        } by {
            assert(self.rows@[i]@[j].wf());
        }
        assert forall|i: int| 0 <= i < now.n_prod() implies #[trigger] now.rows[i].len()
            == now.n_cons() by {
            assert(was.rows[i].len() == was.n_cons());
        }
        assert forall|i: int, j: int|
            0 <= i < now.n_prod() && 0 <= j < now.n_cons() implies #[trigger] now.rows[i][j].len()
            <= now.ring_cap by {
            assert(now.rows[i].len() == now.n_cons());
            assert(next.rows@[i]@[j].wf());
            next.rows@[i]@[j].lemma_bounds();
        }
        assert forall|i: int| 0 <= i < now.n_prod() implies 0 <= #[trigger] now.prod_cursor[i]
            < now.n_cons() by {
            assert(0 <= was.prod_cursor[i] < was.n_cons());
        }
        assert forall|j: int| 0 <= j < now.n_cons() implies 0 <= #[trigger] now.cons_cursor[j]
            < now.n_prod() by {
            assert(0 <= was.cons_cursor[j] < was.n_prod());
        }
    }

    /// A mesh in which every column is closed: a column opens when a consumer
    /// takes it. A ring of no slots, no producers or no consumers is refused,
    /// and so are dimensions whose slots cannot be counted.
    pub fn new(n_prod: usize, n_cons: usize, per_ring_cap: usize) -> (mesh: SpscMesh)
        requires
            n_prod >= 1,
            n_cons >= 1,
            per_ring_cap >= 1,
            (n_prod * n_cons) * per_ring_cap + n_prod <= usize::MAX,
        ensures
            mesh.wf(),
            mesh@ == (MeshState {
                rows: Seq::new(
                    n_prod as nat,
                    |i: int| Seq::new(n_cons as nat, |j: int| Seq::<Bytes>::empty()),
                ),
                ring_cap: per_ring_cap as nat,
                prod_cursor: Seq::new(n_prod as nat, |i: int| 0int),
                cons_cursor: Seq::new(n_cons as nat, |j: int| 0int),
                closed: Seq::new(n_cons as nat, |j: int| true),
                blocked: Seq::new(n_prod as nat, |i: int| false),
            }),
    {
        let mut rows: Vec<Vec<Swsr>> = Vec::new();
        let mut prod_cursor: Vec<usize> = Vec::new();
        let mut blocked: Vec<bool> = Vec::new();
        let mut i: usize = 0;
        while i < n_prod
            invariant
                i <= n_prod,
                per_ring_cap >= 1,
                rows@.len() == i,
                prod_cursor@.len() == i,
                blocked@.len() == i,
                forall|h: int| 0 <= h < i ==> #[trigger] rows@[h]@.len() == n_cons,
                forall|h: int, j: int|
                    0 <= h < i && 0 <= j < n_cons ==> {
                        &&& #[trigger] rows@[h]@[j].wf()
                        &&& rows@[h]@[j].size() == per_ring_cap
                        &&& rows@[h]@[j]@ == Seq::<Bytes>::empty()
                    },
                forall|h: int| 0 <= h < i ==> prod_cursor@[h] == 0,
                forall|h: int| 0 <= h < i ==> blocked@[h] == false,
            decreases n_prod - i,
        {
            let mut row: Vec<Swsr> = Vec::new();
            let mut j: usize = 0;
            while j < n_cons
                invariant
                    j <= n_cons,
                    per_ring_cap >= 1,
                    row@.len() == j,
                    forall|h: int|
                        0 <= h < j ==> {
                            &&& #[trigger] row@[h].wf()
                            &&& row@[h].size() == per_ring_cap
                            &&& row@[h]@ == Seq::<Bytes>::empty()
                        },
                decreases n_cons - j,
            {
                row.push(Swsr::new(per_ring_cap));
                j = j + 1;
            }
            rows.push(row);
            prod_cursor.push(0);
            blocked.push(false);
            i = i + 1;
        }
        let mut cons_cursor: Vec<usize> = Vec::new();
        let mut closed: Vec<bool> = Vec::new();
        let mut j: usize = 0;
        while j < n_cons
            invariant
                j <= n_cons,
                cons_cursor@.len() == j,
                closed@.len() == j,
                forall|h: int| 0 <= h < j ==> cons_cursor@[h] == 0,
                forall|h: int| 0 <= h < j ==> closed@[h] == true,
            decreases n_cons - j,
        {
            cons_cursor.push(0);
            closed.push(true);
            j = j + 1;
        }
        let mesh = SpscMesh {
            rows,
            ring_cap: per_ring_cap,
            prod_cursor,
            cons_cursor,
            closed,
            blocked,
        };
        proof {
            let want = Seq::new(
                n_prod as nat,
                |i: int| Seq::new(n_cons as nat, |j: int| Seq::<Bytes>::empty()),
            );
            assert forall|h: int| 0 <= h < n_prod implies mesh@.rows[h] == want[h] by {
                assert forall|j: int| 0 <= j < n_cons implies mesh@.rows[h][j] == want[h][j] by {
                    assert(mesh.rows@[h]@[j].wf());
                }
                assert(mesh@.rows[h] =~= want[h]);
            }
            assert(mesh@.rows =~= want);
            assert(mesh@.prod_cursor =~= Seq::new(n_prod as nat, |i: int| 0int));
            assert(mesh@.cons_cursor =~= Seq::new(n_cons as nat, |j: int| 0int));
            assert(mesh@.closed =~= Seq::new(n_cons as nat, |j: int| true));
            assert(mesh@.blocked =~= Seq::new(n_prod as nat, |i: int| false));
        }
        mesh
    }

    /// Producer `pi` enqueues `item` in the first column, from its cursor on,
    /// that is open and has room. `Err` hands the item back where there is no
    /// such column: the backpressure signal of the edge.
    pub fn push(&mut self, pi: usize, item: Bytes) -> (r: Result<(), Bytes>)
        requires
            old(self).wf(),
            pi < old(self)@.n_prod(),
        ensures
            final(self).wf(),
            r is Ok ==> exists|j: int|
                #![trigger old(self)@.first_accepting(pi as int, j)]
                old(self)@.first_accepting(pi as int, j) && final(self)@ == old(self)@.after_push(
                    pi as int,
                    j,
                    item,
                ),
            r is Err <==> old(self)@.backpressure(pi as int),
            r matches Err(back) ==> back == item && final(self)@ == old(self)@,
    {
        let ghost start = self@;
        let n_cons: usize = self.closed.len();
        let cur: usize = self.prod_cursor[pi];
        assert(start.prod_cursor[pi as int] == cur);
        assert(start.rows[pi as int].len() == n_cons);
        let mut pending = item;
        let mut k: usize = 0;
        while k < n_cons
            invariant
                k <= n_cons,
                self.wf(),
                start == self@,
                start == old(self)@,
                pi < start.n_prod(),
                n_cons == start.n_cons(),
                cur == start.prod_cursor[pi as int],
                cur < n_cons,
                start.rows[pi as int].len() == n_cons,
                pending == item,
                forall|h: int|
                    0 <= h < k ==> !start.accepts(
                        pi as int,
                        #[trigger] start.column_tried(pi as int, h),
                    ),
            decreases n_cons - k,
        {
            let j: usize = if cur >= n_cons - k {
                cur - (n_cons - k)
            } else {
                cur + k
            };
            assert(j == start.column_tried(pi as int, k as int));
            assert(start.rows[pi as int][j as int] == self.rows@[pi as int]@[j as int]@);
            if !self.closed[j] {
                let ghost before = *self;
                assert(self.rows@[pi as int]@[j as int].wf());
                match self.rows[pi][j].push(pending) {
                    Ok(()) => {
                        self.prod_cursor.set(pi, if j + 1 >= n_cons { 0 } else { j + 1 });
                        proof {
                            let after = start.after_push(pi as int, j as int, item);
                            assert forall|i: int| 0 <= i < start.n_prod() implies self@.rows[i]
                                == after.rows[i] by {
                                assert(self@.rows[i] =~= after.rows[i]);
                            }
                            assert(self@.rows =~= after.rows);
                            assert(self@.prod_cursor =~= after.prod_cursor);
                            assert(self@ == after);
                            before.lemma_kept(self, pi as int, j as int);
                            assert(start.accepts(pi as int, j as int));
                            assert(start.first_accepting(pi as int, j as int));
                            assert(!start.backpressure(pi as int));
                        }
                        return Ok(());
                    },
                    Err(back) => {
                        pending = back;
                        proof {
                            assert(!start.accepts(pi as int, j as int));
                            assert forall|i: int| 0 <= i < start.n_prod() implies self@.rows[i]
                                == start.rows[i] by {
                                assert(self@.rows[i] =~= start.rows[i]);
                            }
                            assert(self@.rows =~= start.rows);
                            before.lemma_kept(self, pi as int, j as int);
                        }
                    },
                }
            }
            k = k + 1;
        }
        assert(start.backpressure(pi as int)) by {
            assert forall|j: int| 0 <= j < n_cons implies !#[trigger] start.accepts(
                pi as int,
                j,
            ) by {
                let h = if j >= cur {
                    j - cur
                } else {
                    j - cur + n_cons
                };
                assert(start.column_tried(pi as int, h) == j);
            }
        }
        Err(pending)
    }

    /// Closes consumer `ci`'s column: no producer selects it any more, so what
    /// it holds is all that is left to hand out. Closing twice is closing once.
    pub fn close_consumer(&mut self, ci: usize)
        requires
            old(self).wf(),
            ci < old(self)@.n_cons(),
        ensures
            final(self).wf(),
            final(self)@ == (MeshState {
                closed: old(self)@.closed.update(ci as int, true),
                ..old(self)@
            }),
    {
        self.set_closed(ci, true);
    }

    /// Opens consumer `ci`'s column.
    pub fn reopen_consumer(&mut self, ci: usize)
        requires
            old(self).wf(),
            ci < old(self)@.n_cons(),
        ensures
            final(self).wf(),
            final(self)@ == (MeshState {
                closed: old(self)@.closed.update(ci as int, false),
                ..old(self)@
            }),
    {
        self.set_closed(ci, false);
    }

    fn set_closed(&mut self, ci: usize, to: bool)
        requires
            old(self).wf(),
            ci < old(self)@.n_cons(),
        ensures
            final(self).wf(),
            final(self)@ == (MeshState {
                closed: old(self)@.closed.update(ci as int, to),
                ..old(self)@
            }),
    {
        assert(self@.rows[0].len() == self@.n_cons());
        self.closed.set(ci, to);
        proof {
            assert(old(self).rows@[0]@[0].wf());
            old(self).lemma_kept(self, 0, 0);
        }
    }

    /// Marks producer `pi` as waiting for room, or as no longer waiting.
    fn set_blocked(&mut self, pi: usize, to: bool)
        requires
            old(self).wf(),
            pi < old(self)@.n_prod(),
        ensures
            final(self).wf(),
            final(self)@ == (MeshState {
                blocked: old(self)@.blocked.update(pi as int, to),
                ..old(self)@
            }),
    {
        assert(self@.rows[0].len() == self@.n_cons());
        self.blocked.set(pi, to);
        proof {
            assert(old(self).rows@[0]@[0].wf());
            old(self).lemma_kept(self, 0, 0);
        }
    }

    /// Consumer `ci` dequeues the oldest item of the first producer, from its
    /// cursor on, that has sent it one. `None` where none has.
    pub fn pop(&mut self, ci: usize) -> (r: Option<Bytes>)
        requires
            old(self).wf(),
            ci < old(self)@.n_cons(),
        ensures
            final(self).wf(),
            r matches Some(item) ==> exists|i: int|
                #![trigger old(self)@.first_holding(i, ci as int)]
                old(self)@.first_holding(i, ci as int) && item == old(self)@.rows[i][ci as int][0]
                    && final(self)@ == old(self)@.after_pop(i, ci as int),
            r is None <==> old(self)@.column_empty(ci as int),
            r is None ==> final(self)@ == old(self)@,
    {
        let ghost start = self@;
        let n_prod: usize = self.rows.len();
        let cur: usize = self.cons_cursor[ci];
        assert(start.cons_cursor[ci as int] == cur);
        let mut k: usize = 0;
        while k < n_prod
            invariant
                k <= n_prod,
                self.wf(),
                start == self@,
                start == old(self)@,
                ci < start.n_cons(),
                n_prod == start.n_prod(),
                cur == start.cons_cursor[ci as int],
                cur < n_prod,
                forall|h: int|
                    0 <= h < k ==> start.rows[#[trigger] start.row_polled(ci as int, h)][ci as int].len()
                        == 0,
            decreases n_prod - k,
        {
            let i: usize = if cur >= n_prod - k {
                cur - (n_prod - k)
            } else {
                cur + k
            };
            assert(i == start.row_polled(ci as int, k as int));
            assert(start.rows[i as int].len() == start.n_cons());
            assert(start.rows[i as int][ci as int] == self.rows@[i as int]@[ci as int]@);
            assert(self.rows@[i as int]@[ci as int].wf());
            let ghost before = *self;
            match self.rows[i][ci].pop() {
                Some(item) => {
                    self.cons_cursor.set(ci, if i + 1 >= n_prod { 0 } else { i + 1 });
                    proof {
                        let after = start.after_pop(i as int, ci as int);
                        assert forall|h: int| 0 <= h < start.n_prod() implies self@.rows[h]
                            == after.rows[h] by {
                            assert(self@.rows[h] =~= after.rows[h]);
                        }
                        assert(self@.rows =~= after.rows);
                        assert(self@.cons_cursor =~= after.cons_cursor);
                        assert(self@ == after);
                        before.lemma_kept(self, i as int, ci as int);
                        assert(start.first_holding(i as int, ci as int));
                        assert(!start.column_empty(ci as int));
                    }
                    return Some(item);
                },
                None => {
                    proof {
                        assert forall|h: int| 0 <= h < start.n_prod() implies self@.rows[h]
                            == start.rows[h] by {
                            assert(self@.rows[h] =~= start.rows[h]);
                        }
                        assert(self@.rows =~= start.rows);
                        before.lemma_kept(self, i as int, ci as int);
                    }
                },
            }
            k = k + 1;
        }
        assert(start.column_empty(ci as int)) by {
            assert forall|i: int| 0 <= i < n_prod implies #[trigger] start.rows[i][ci as int].len()
                == 0 by {
                let h = if i >= cur {
                    i - cur
                } else {
                    i - cur + n_prod
                };
                assert(start.row_polled(ci as int, h) == i);
            }
        }
        None
    }

    /// Everything the rings hold, plus the producers that wait for room: a
    /// mesh that is all closed and all empty still shows demand while a
    /// producer waits on it.
    pub fn len(&self) -> (n: usize)
        requires
            self.wf(),
        ensures
            n == self@.depth(),
    {
        let n_prod: usize = self.rows.len();
        let n_cons: usize = self.closed.len();
        let ghost st = self@;
        let ghost per_row = n_cons * self.ring_cap;
        let mut total: usize = 0;
        let mut i: usize = 0;
        proof {
            assert((n_prod * n_cons) * self.ring_cap == n_prod * per_row) by (nonlinear_arith)
                requires
                    per_row == n_cons * self.ring_cap,
            ;
            assert(per_row >= 0) by (nonlinear_arith)
                requires
                    per_row == n_cons * self.ring_cap,
            ;
        }
        while i < n_prod
            invariant
                i <= n_prod,
                self.wf(),
                st == self@,
                n_prod == st.n_prod(),
                n_cons == st.n_cons(),
                per_row == n_cons * self.ring_cap,
                per_row >= 0,
                n_prod * per_row + n_prod <= usize::MAX,
                total == mesh_total(st.rows.take(i as int)) + count_true(st.blocked.take(i as int)),
                total <= i * per_row + i,
            decreases n_prod - i,
        {
            assert((i + 1) * per_row == i * per_row + per_row) by (nonlinear_arith);
            assert((i + 1) * per_row <= n_prod * per_row) by (nonlinear_arith)
                requires
                    i + 1 <= n_prod,
                    per_row >= 0,
            ;
            assert(st.rows[i as int].len() == n_cons);
            let ghost base = total;
            let mut j: usize = 0;
            while j < n_cons
                invariant
                    j <= n_cons,
                    i < n_prod,
                    self.wf(),
                    st == self@,
                    n_prod == st.n_prod(),
                    n_cons == st.n_cons(),
                    st.rows[i as int].len() == n_cons,
                    total == base + row_total(st.rows[i as int].take(j as int)),
                    row_total(st.rows[i as int].take(j as int)) <= j * self.ring_cap,
                    base + per_row + 1 <= usize::MAX,
                    per_row == n_cons * self.ring_cap,
                decreases n_cons - j,
            {
                let ghost row = st.rows[i as int];
                assert(row[j as int] == self.rows@[i as int]@[j as int]@);
                assert(self.rows@[i as int]@[j as int].wf());
                proof {
                    self.rows@[i as int]@[j as int].lemma_bounds();
                    assert(row.take(j + 1).drop_last() =~= row.take(j as int));
                    assert((j + 1) * self.ring_cap == j * self.ring_cap + self.ring_cap)
                        by (nonlinear_arith);
                    assert((j + 1) * self.ring_cap <= n_cons * self.ring_cap) by (nonlinear_arith)
                        requires
                            j + 1 <= n_cons,
                    ;
                }
                let held: usize = self.rows[i][j].len();
                total = total + held;
                j = j + 1;
            }
            proof {
                assert(st.rows[i as int].take(n_cons as int) =~= st.rows[i as int]);
                assert(st.rows.take(i + 1).drop_last() =~= st.rows.take(i as int));
                assert(st.blocked.take(i + 1).drop_last() =~= st.blocked.take(i as int));
            }
            if self.blocked[i] {
                total = total + 1;
            }
            i = i + 1;
        }
        proof {
            assert(st.rows.take(n_prod as int) =~= st.rows);
            assert(st.blocked.take(n_prod as int) =~= st.blocked);
        }
        total
    }
}

/// A producer's handle into a mesh: its row.
#[derive(Clone, Copy, Debug)]
pub struct MeshTx {
    pi: usize,
}

impl MeshTx {
    /// The producer index of the handle.
    pub closed spec fn row(&self) -> int {
        self.pi as int
    }

    pub fn new(pi: usize) -> (tx: MeshTx)
        ensures
            tx.row() == pi,
    {
        MeshTx { pi }
    }

    /// One attempt of a blocking enqueue. While it waits, the producer is
    /// counted into the depth of the mesh; it stops being counted when the
    /// event is delivered, or dropped because the pipeline is shutting down.
    pub fn push(
        &self,
        mesh: &mut SpscMesh,
        item: Bytes,
        drain: bool,
        backoff: &mut Backoff,
    ) -> (r: PushStep)
        requires
            old(mesh).wf(),
            self.row() < old(mesh)@.n_prod(),
        ensures
            final(mesh).wf(),
            mesh_push_step(
                old(mesh)@,
                final(mesh)@,
                self.row(),
                item,
                drain,
                r,
            ),
            r matches PushStep::Blocked(back, w) ==> back == item && w == crate::inproc::wait_at(
                old(backoff).steps(),
            ),
            r is Blocked ==> final(backoff).steps() == crate::inproc::next_steps(
                old(backoff).steps(),
            ),
            r !is Blocked ==> final(backoff).steps() == old(backoff).steps(),
    {
        match mesh.push(self.pi, item) {
            Ok(()) => {
                let ghost sent = mesh@;
                mesh.set_blocked(self.pi, false);
                proof {
                    let j = choose|j: int|
                        #![trigger old(mesh)@.first_accepting(self.row(), j)]
                        old(mesh)@.first_accepting(self.row(), j) && sent == old(mesh)@.after_push(
                            self.row(),
                            j,
                            item,
                        );
                    assert(old(mesh)@.first_accepting(self.row(), j));
                }
                PushStep::Delivered
            },
            Err(back) => if drain {
                mesh.set_blocked(self.pi, false);
                PushStep::Dropped
            } else {
                mesh.set_blocked(self.pi, true);
                PushStep::Blocked(back, backoff.wait())
            },
        }
    }
}

/// What one attempt of producer `i` to enqueue `item` does to a mesh.
pub open spec fn mesh_push_step(
    was: MeshState,
    now: MeshState,
    i: int,
    item: Bytes,
    drain: bool,
    r: PushStep,
) -> bool {
    &&& r is Delivered <==> !was.backpressure(i)
    &&& r !is Delivered ==> (r is Dropped <==> drain)
    &&& r is Delivered ==> exists|j: int|
        #![trigger was.first_accepting(i, j)]
        was.first_accepting(i, j) && now == (MeshState {
            blocked: was.blocked.update(i, false),
            ..was.after_push(i, j, item)
        })
    &&& r is Dropped ==> now == (MeshState { blocked: was.blocked.update(i, false), ..was })
    &&& r is Blocked ==> now == (MeshState { blocked: was.blocked.update(i, true), ..was })
}

/// A consumer's handle into a mesh: its column.
#[derive(Clone, Copy, Debug)]
pub struct MeshRx {
    ci: usize,
}

impl MeshRx {
    /// The consumer index of the handle.
    pub closed spec fn column(&self) -> int {
        self.ci as int
    }

    /// Binds a consumer to column `ci` and opens the column: it may receive
    /// from the moment a consumer occupies it, and not before.
    pub fn new(mesh: &mut SpscMesh, ci: usize) -> (rx: MeshRx)
        requires
            old(mesh).wf(),
            ci < old(mesh)@.n_cons(),
        ensures
            final(mesh).wf(),
            rx.column() == ci,
            final(mesh)@ == (MeshState {
                closed: old(mesh)@.closed.update(ci as int, false),
                ..old(mesh)@
            }),
    {
        mesh.reopen_consumer(ci);
        MeshRx { ci }
    }

    /// One attempt of a blocking dequeue. A consumer told to drain closes its
    /// column first, so what it is handed from then on is a residue that only
    /// shrinks, and it is done when the column is empty.
    pub fn pop(&self, mesh: &mut SpscMesh, drain: bool, backoff: &mut Backoff) -> (r: PopStep)
        requires
            old(mesh).wf(),
            self.column() < old(mesh)@.n_cons(),
        ensures
            final(mesh).wf(),
            mesh_pop_step(old(mesh)@, final(mesh)@, self.column(), drain, r),
            r matches PopStep::Empty(w) ==> w == crate::inproc::wait_at(old(backoff).steps()),
            r is Empty ==> final(backoff).steps() == crate::inproc::next_steps(
                old(backoff).steps(),
            ),
            r !is Empty ==> final(backoff).steps() == old(backoff).steps(),
    {
        if drain {
            mesh.close_consumer(self.ci);
        }
        let ghost mid = mesh@;
        proof {
            mesh.lemma_state();
            lemma_close_keeps_queues(old(mesh)@, mid, self.column());
        }
        match mesh.pop(self.ci) {
            Some(item) => {
                proof {
                    let i = choose|i: int|
                        #![trigger mid.first_holding(i, self.column())]
                        mid.first_holding(i, self.column()) && item == mid.rows[i][self.column()][0]
                            && mesh@ == mid.after_pop(i, self.column());
                    assert(mid.first_holding(i, self.column()));
                    assert(old(mesh)@.first_holding(i, self.column()));
                }
                PopStep::Item(item)
            },
            None => if drain {
                PopStep::Done
            } else {
                PopStep::Empty(backoff.wait())
            },
        }
    }
}

/// Closing a column changes neither what it holds nor whose turn it is.
proof fn lemma_close_keeps_queues(was: MeshState, mid: MeshState, j: int)
    requires
        was.wf(),
        0 <= j < was.n_cons(),
        mid == was || mid == (MeshState { closed: was.closed.update(j, true), ..was }),
    ensures
        mid.column_empty(j) == was.column_empty(j),
        forall|i: int| #[trigger] mid.first_holding(i, j) == was.first_holding(i, j),
{
    if mid.column_empty(j) {
        assert forall|i: int| 0 <= i < was.n_prod() implies #[trigger] was.rows[i][j].len()
            == 0 by {
            assert(mid.rows[i][j].len() == 0);
        }
    }
    if was.column_empty(j) {
        assert forall|i: int| 0 <= i < mid.n_prod() implies #[trigger] mid.rows[i][j].len()
            == 0 by {
            assert(was.rows[i][j].len() == 0);
        }
    }
    assert forall|k: int| was.row_polled(j, k) == mid.row_polled(j, k) by {}
    assert forall|i: int| #[trigger] mid.first_holding(i, j) == was.first_holding(i, j) by {
        if mid.first_holding(i, j) {
            let k = choose|k: int|
                0 <= k < mid.n_prod() && #[trigger] mid.row_polled(j, k) == i
                    && mid.rows[i][j].len() > 0 && forall|h: int|
                    0 <= h < k ==> mid.rows[#[trigger] mid.row_polled(j, h)][j].len() == 0;
            assert(was.row_polled(j, k) == i);
            assert forall|h: int| 0 <= h < k implies was.rows[#[trigger] was.row_polled(
                j,
                h,
            )][j].len() == 0 by {
                assert(mid.rows[mid.row_polled(j, h)][j].len() == 0);
            }
        }
        if was.first_holding(i, j) {
            let k = choose|k: int|
                0 <= k < was.n_prod() && #[trigger] was.row_polled(j, k) == i
                    && was.rows[i][j].len() > 0 && forall|h: int|
                    0 <= h < k ==> was.rows[#[trigger] was.row_polled(j, h)][j].len() == 0;
            assert(mid.row_polled(j, k) == i);
            assert forall|h: int| 0 <= h < k implies mid.rows[#[trigger] mid.row_polled(
                j,
                h,
            )][j].len() == 0 by {
                assert(was.rows[was.row_polled(j, h)][j].len() == 0);
            }
        }
    }
}

/// What one attempt of consumer `j` to dequeue does to a mesh.
pub open spec fn mesh_pop_step(
    was: MeshState,
    now: MeshState,
    j: int,
    drain: bool,
    r: PopStep,
) -> bool {
    let closed = if drain {
        was.closed.update(j, true)
    } else {
        was.closed
    };
    &&& r is Item <==> !was.column_empty(j)
    &&& r !is Item ==> (r is Done <==> drain) && now == (MeshState { closed, ..was })
    &&& r matches PopStep::Item(item) ==> exists|i: int|
        #![trigger was.first_holding(i, j)]
        was.first_holding(i, j) && item == was.rows[i][j][0] && now == (MeshState {
            closed,
            ..was.after_pop(i, j)
        })
}

/// A worker's input handle.
#[derive(Clone, Copy, Debug)]
pub enum EdgeIn {
    /// The ring that all replicas share.
    Ring,
    /// A column of the mesh.
    Mesh(MeshRx),
}

/// A worker's output handle.
#[derive(Clone, Copy, Debug)]
pub enum EdgeOut {
    /// The ring that all replicas share.
    Ring,
    /// A row of the mesh.
    Mesh(MeshTx),
}

/// The input of a stage, with the storage of the edge that feeds it.
pub enum EdgeInSrc {
    Absent,
    Ring(Edge),
    Mesh(SpscMesh),
}

/// The output of a stage: where its replicas stand on the edge that feeds the
/// next one.
#[derive(Clone, Copy, Debug)]
pub enum EdgeOutSrc {
    Absent,
    Ring,
    /// Replica `r` writes to row `base + r` of the mesh. Each stage that feeds
    /// one mesh has a range of rows of its own.
    Mesh { base: usize },
}

impl EdgeIn {
    /// The handle belongs to an edge of this shape.
    pub open spec fn fits(&self, src: EdgeInSrc) -> bool {
        match (*self, src) {
            (EdgeIn::Ring, EdgeInSrc::Ring(_)) => true,
            (EdgeIn::Mesh(rx), EdgeInSrc::Mesh(mesh)) => mesh.wf() && 0 <= rx.column()
                < mesh@.n_cons(),
            _ => false,
        }
    }

    /// One attempt to get the next event; `Done` when the worker should exit.
    ///
    /// `drain` is the cooperative shutdown: work already accepted is handed
    /// out first. `stop` retires the whole stage, and tells apart only on the
    /// shared ring: what a stopped worker leaves there stays for a sibling or
    /// for the stage's next generation, whereas a closed column empties by
    /// itself.
    pub fn pop(
        &self,
        src: &mut EdgeInSrc,
        drain: bool,
        stop: bool,
        backoff: &mut Backoff,
    ) -> (r: PopStep)
        requires
            self.fits(*old(src)),
        ensures
            self.fits(*final(src)),
            match (*old(src), *final(src)) {
                (EdgeInSrc::Ring(was), EdgeInSrc::Ring(now)) => if stop {
                    r is Done && now == was
                } else {
                    crate::inproc::edge_pop_step(was, now, drain, r)
                },
                (EdgeInSrc::Mesh(was), EdgeInSrc::Mesh(now)) => match *self {
                    EdgeIn::Mesh(rx) => mesh_pop_step(was@, now@, rx.column(), drain, r),
                    EdgeIn::Ring => false,
                },
                _ => false,
            },
            r matches PopStep::Empty(w) ==> w == crate::inproc::wait_at(old(backoff).steps()),
            r is Empty ==> final(backoff).steps() == crate::inproc::next_steps(
                old(backoff).steps(),
            ),
            r !is Empty ==> final(backoff).steps() == old(backoff).steps(),
    {
        match self {
            EdgeIn::Ring => match src {
                EdgeInSrc::Ring(edge) => {
                    if stop {
                        return PopStep::Done;
                    }
                    edge.pop(drain, backoff)
                },
                _ => PopStep::Done,
            },
            EdgeIn::Mesh(rx) => match src {
                EdgeInSrc::Mesh(mesh) => rx.pop(mesh, drain, backoff),
                _ => PopStep::Done,
            },
        }
    }
}

impl EdgeOut {
    /// The handle belongs to an edge of this shape.
    pub open spec fn fits(&self, src: EdgeInSrc) -> bool {
        match (*self, src) {
            (EdgeOut::Ring, EdgeInSrc::Ring(_)) => true,
            (EdgeOut::Mesh(tx), EdgeInSrc::Mesh(mesh)) => mesh.wf() && 0 <= tx.row()
                < mesh@.n_prod(),
            _ => false,
        }
    }

    /// One attempt to hand an event to the next stage.
    pub fn push(
        &self,
        dst: &mut EdgeInSrc,
        item: Bytes,
        drain: bool,
        backoff: &mut Backoff,
    ) -> (r: PushStep)
        requires
            self.fits(*old(dst)),
        ensures
            self.fits(*final(dst)),
            match (*old(dst), *final(dst)) {
                (EdgeInSrc::Ring(was), EdgeInSrc::Ring(now)) => crate::inproc::edge_push_step(
                    was,
                    now,
                    item,
                    drain,
                    r,
                ),
                (EdgeInSrc::Mesh(was), EdgeInSrc::Mesh(now)) => match *self {
                    EdgeOut::Mesh(tx) => mesh_push_step(was@, now@, tx.row(), item, drain, r),
                    EdgeOut::Ring => false,
                },
                _ => false,
            },
            r matches PushStep::Blocked(back, w) ==> back == item && w == crate::inproc::wait_at(
                old(backoff).steps(),
            ),
            r is Blocked ==> final(backoff).steps() == crate::inproc::next_steps(
                old(backoff).steps(),
            ),
            r !is Blocked ==> final(backoff).steps() == old(backoff).steps(),
    {
        match self {
            EdgeOut::Ring => match dst {
                EdgeInSrc::Ring(edge) => edge.push(item, drain, backoff),
                _ => PushStep::Dropped,
            },
            EdgeOut::Mesh(tx) => match dst {
                EdgeInSrc::Mesh(mesh) => tx.push(mesh, item, drain, backoff),
                _ => PushStep::Dropped,
            },
        }
    }
}

impl EdgeInSrc {
    pub open spec fn wf(&self) -> bool {
        match *self {
            EdgeInSrc::Mesh(mesh) => mesh.wf(),
            _ => true,
        }
    }

    /// How many events wait for the stage.
    pub open spec fn depth(&self) -> nat {
        match *self {
            EdgeInSrc::Absent => 0,
            EdgeInSrc::Ring(edge) => edge.events().len(),
            EdgeInSrc::Mesh(mesh) => mesh@.depth(),
        }
    }

    /// The handle of replica `r`. On the mesh that is column `r`, which opens.
    pub fn for_replica(&mut self, r: usize) -> (handle: Option<EdgeIn>)
        requires
            old(self).wf(),
            *old(self) matches EdgeInSrc::Mesh(mesh) ==> r < mesh@.n_cons(),
        ensures
            final(self).wf(),
            match *old(self) {
                EdgeInSrc::Absent => handle is None && *final(self) == *old(self),
                EdgeInSrc::Ring(_) => handle == Some(EdgeIn::Ring) && *final(self) == *old(self),
                EdgeInSrc::Mesh(was) => {
                    &&& handle matches Some(EdgeIn::Mesh(rx)) && rx.column() == r
                    &&& *final(self) matches EdgeInSrc::Mesh(now) && now@ == (MeshState {
                        closed: was@.closed.update(r as int, false),
                        ..was@
                    })
                },
            },
    {
        match self {
            EdgeInSrc::Absent => None,
            EdgeInSrc::Ring(_) => Some(EdgeIn::Ring),
            EdgeInSrc::Mesh(mesh) => Some(EdgeIn::Mesh(MeshRx::new(mesh, r))),
        }
    }

    /// The scaling signal of the stage.
    pub fn len(&self) -> (n: usize)
        requires
            self.wf(),
        ensures
            n == self.depth(),
    {
        match self {
            EdgeInSrc::Absent => 0,
            EdgeInSrc::Ring(edge) => edge.len(),
            EdgeInSrc::Mesh(mesh) => mesh.len(),
        }
    }

    pub fn is_some(&self) -> (b: bool)
        ensures
            b == (*self !is Absent),
    {
        match self {
            EdgeInSrc::Absent => false,
            _ => true,
        }
    }
}

impl EdgeOutSrc {
    /// The handle of replica `r`. On the mesh that is row `base + r`, an index
    /// of another kind than the replica's own.
    pub fn for_replica(&self, r: usize) -> (handle: Option<EdgeOut>)
        requires
            self matches EdgeOutSrc::Mesh { base } ==> base + r <= usize::MAX,
        ensures
            match *self {
                EdgeOutSrc::Absent => handle is None,
                EdgeOutSrc::Ring => handle == Some(EdgeOut::Ring),
                EdgeOutSrc::Mesh { base } => handle matches Some(EdgeOut::Mesh(tx)) && tx.row()
                    == base + r,
            },
    {
        match self {
            EdgeOutSrc::Absent => None,
            EdgeOutSrc::Ring => Some(EdgeOut::Ring),
            EdgeOutSrc::Mesh { base } => Some(EdgeOut::Mesh(MeshTx::new(*base + r))),
        }
    }
}

/// What has been sent over each ring of a mesh is what has been taken from it,
/// in the same order, followed by what it still holds.
pub open spec fn conserved(
    sent: Seq<Seq<Seq<Bytes>>>,
    taken: Seq<Seq<Seq<Bytes>>>,
    mesh: MeshState,
) -> bool {
    forall|i: int, j: int|
        0 <= i < mesh.n_prod() && 0 <= j < mesh.n_cons() ==> sent[i][j] == taken[i][j]
            + #[trigger] mesh.rows[i][j]
}

/// Law: an enqueue loses nothing, duplicates nothing and keeps the order. The
/// event is appended to what its producer has sent one consumer, or, where it
/// was not delivered, to nothing at all.
pub proof fn law_push_conserves(
    sent: Seq<Seq<Seq<Bytes>>>,
    taken: Seq<Seq<Seq<Bytes>>>,
    was: MeshState,
    now: MeshState,
    i: int,
    item: Bytes,
    drain: bool,
    r: PushStep,
)
    requires
        was.wf(),
        0 <= i < was.n_prod(),
        sent.len() == was.n_prod(),
        sent[i].len() == was.n_cons(),
        conserved(sent, taken, was),
        mesh_push_step(was, now, i, item, drain, r),
    ensures
        r is Delivered ==> exists|j: int|
            0 <= j < was.n_cons() && conserved(
                #[trigger] sent.update(i, sent[i].update(j, sent[i][j].push(item))),
                taken,
                now,
            ),
        r !is Delivered ==> conserved(sent, taken, now),
{
    if r is Delivered {
        let j = choose|j: int|
            #![trigger was.first_accepting(i, j)]
            was.first_accepting(i, j) && now == (MeshState {
                blocked: was.blocked.update(i, false),
                ..was.after_push(i, j, item)
            });
        let k = choose|k: int|
            0 <= k < was.n_cons() && #[trigger] was.column_tried(i, k) == j && was.accepts(i, j);
        assert(0 <= was.prod_cursor[i] < was.n_cons());
        assert(0 <= j < was.n_cons());
        assert(was.rows[i].len() == was.n_cons());
        let sent2 = sent.update(i, sent[i].update(j, sent[i][j].push(item)));
        assert forall|h: int, c: int|
            0 <= h < now.n_prod() && 0 <= c < now.n_cons() implies sent2[h][c] == taken[h][c]
            + #[trigger] now.rows[h][c] by {
            assert(sent[h][c] == taken[h][c] + was.rows[h][c]);
            assert(sent2[h][c] =~= taken[h][c] + now.rows[h][c]);
        }
        assert(conserved(sent2, taken, now));
    } else {
        assert forall|h: int, c: int|
            0 <= h < now.n_prod() && 0 <= c < now.n_cons() implies sent[h][c] == taken[h][c]
            + #[trigger] now.rows[h][c] by {
            assert(sent[h][c] == taken[h][c] + was.rows[h][c]);
        }
    }
}

/// Law: a dequeue loses nothing, duplicates nothing and keeps the order. What
/// it hands out is the next event that some producer sent this consumer.
pub proof fn law_pop_conserves(
    sent: Seq<Seq<Seq<Bytes>>>,
    taken: Seq<Seq<Seq<Bytes>>>,
    was: MeshState,
    now: MeshState,
    j: int,
    drain: bool,
    r: PopStep,
)
    requires
        was.wf(),
        0 <= j < was.n_cons(),
        taken.len() == was.n_prod(),
        forall|i: int| 0 <= i < was.n_prod() ==> #[trigger] taken[i].len() == was.n_cons(),
        conserved(sent, taken, was),
        mesh_pop_step(was, now, j, drain, r),
    ensures
        r matches PopStep::Item(item) ==> exists|i: int|
            0 <= i < was.n_prod() && conserved(
                sent,
                #[trigger] taken.update(i, taken[i].update(j, taken[i][j].push(item))),
                now,
            ) && sent[i][j][taken[i][j].len() as int] == item,
        r !is Item ==> conserved(sent, taken, now),
{
    match r {
        PopStep::Item(item) => {
            let i = choose|i: int|
                #![trigger was.first_holding(i, j)]
                was.first_holding(i, j) && item == was.rows[i][j][0] && now.rows == was.after_pop(
                    i,
                    j,
                ).rows;
            let k = choose|k: int|
                0 <= k < was.n_prod() && #[trigger] was.row_polled(j, k) == i
                    && was.rows[i][j].len() > 0;
            assert(0 <= was.cons_cursor[j] < was.n_prod());
            assert(0 <= i < was.n_prod());
            assert(was.rows[i].len() == was.n_cons());
            assert(taken[i].len() == was.n_cons());
            let taken2 = taken.update(i, taken[i].update(j, taken[i][j].push(item)));
            assert(sent[i][j] == taken[i][j] + was.rows[i][j]);
            assert forall|h: int, c: int|
                0 <= h < now.n_prod() && 0 <= c < now.n_cons() implies sent[h][c] == taken2[h][c]
                + #[trigger] now.rows[h][c] by {
                assert(sent[h][c] == taken[h][c] + was.rows[h][c]);
                assert(taken[h].len() == was.n_cons());
                assert(was.rows[h].len() == was.n_cons());
                assert(sent[h][c] =~= taken2[h][c] + now.rows[h][c]);
            }
            assert(conserved(sent, taken2, now));
        },
        _ => {
            assert forall|h: int, c: int|
                0 <= h < now.n_prod() && 0 <= c < now.n_cons() implies sent[h][c] == taken[h][c]
                + #[trigger] now.rows[h][c] by {
                assert(sent[h][c] == taken[h][c] + was.rows[h][c]);
            }
        },
    }
}

/// Law: a column that is closed, because its consumer drains or because none
/// has ever bound it, accepts nothing, whoever sends.
pub proof fn law_closed_column_accepts_nothing(
    was: MeshState,
    now: MeshState,
    i: int,
    item: Bytes,
    drain: bool,
    r: PushStep,
    j: int,
)
    requires
        was.wf(),
        0 <= i < was.n_prod(),
        0 <= j < was.n_cons(),
        was.closed[j],
        mesh_push_step(was, now, i, item, drain, r),
    ensures
        now.closed[j],
        forall|h: int|
            0 <= h < was.n_prod() ==> #[trigger] now.rows[h][j] == was.rows[h][j],
{
    if r is Delivered {
        let c = choose|c: int|
            #![trigger was.first_accepting(i, c)]
            was.first_accepting(i, c) && now == (MeshState {
                blocked: was.blocked.update(i, false),
                ..was.after_push(i, c, item)
            });
        assert(was.rows[i].len() == was.n_cons());
        assert(c != j);
    }
}

/// Law: a drained consumer that is told to exit leaves its column closed and
/// empty, so nothing is stranded behind it.
pub proof fn law_drained_column_is_empty(
    was: MeshState,
    now: MeshState,
    j: int,
    drain: bool,
    r: PopStep,
)
    requires
        was.wf(),
        0 <= j < was.n_cons(),
        mesh_pop_step(was, now, j, drain, r),
        r is Done,
    ensures
        now.closed[j],
        now.column_empty(j),
{
    assert forall|i: int| 0 <= i < now.n_prod() implies #[trigger] now.rows[i][j].len() == 0 by {
        assert(was.rows[i][j].len() == 0);
    }
}

/// Law: a producer that waits shows in the depth of the mesh, even where every
/// column is closed and empty.
pub proof fn law_waiting_producer_shows_in_depth(
    was: MeshState,
    now: MeshState,
    i: int,
    item: Bytes,
    r: PushStep,
)
    requires
        was.wf(),
        0 <= i < was.n_prod(),
        mesh_push_step(was, now, i, item, false, r),
        r is Blocked,
    ensures
        now.depth() > 0,
{
    lemma_count_positive(now.blocked, i);
}

proof fn lemma_count_positive(flags: Seq<bool>, i: int)
    requires
        0 <= i < flags.len(),
        flags[i],
    ensures
        count_true(flags) > 0,
    decreases flags.len(),
{
    if i < flags.len() - 1 {
        lemma_count_positive(flags.drop_last(), i);
    }
}

} // verus!
