use crate::keyed::{first_at, lemma_lookup_absent, lemma_lookup_first, lemma_lookup_push, lemma_lookup_update, lookup};
use crate::types::{Entity, FwauId};
use vstd::prelude::*;

verus! {

/// A cell of the hierarchical spatial hash: level 0, 1, 2 have edges of 32, 128, 512 m.
#[derive(Clone, Copy, PartialEq, Eq, Structural, Hash, Debug)]
pub struct CellKey {
    pub level: u8,
    pub x: i32,
    pub y: i32,
    pub z: i32,
}

/// Entities in a cell and the sessions subscribed to it.
#[derive(Clone, Debug)]
pub struct Cell {
    pub entities: Vec<Entity>,
    pub subscribers: Vec<FwauId>,
}

impl Default for Cell {
    fn default() -> (c: Self)
        ensures
            c.entities@ == Seq::<Entity>::empty(),
            c.subscribers@ == Seq::<FwauId>::empty(),
    {
        Cell { entities: Vec::new(), subscribers: Vec::new() }
    }
}


/// The `i`-th cell around `center` (0 <= i < 27): offsets -1..=1 on x, then y, then z,
/// z varying fastest.
pub open spec fn neighbor(center: CellKey, i: int) -> CellKey {
    CellKey {
        level: center.level,
        x: (center.x + (i / 9 - 1)) as i32,
        y: (center.y + ((i / 3) % 3 - 1)) as i32,
        z: (center.z + (i % 3 - 1)) as i32,
    }
}

/// Coordinates one step away from the centre stay in range.
pub open spec fn has_neighborhood(center: CellKey) -> bool {
    &&& i32::MIN < center.x < i32::MAX
    &&& i32::MIN < center.y < i32::MAX
    &&& i32::MIN < center.z < i32::MAX
}

/// The 27 cells of the 3 x 3 x 3 block around `center`, at its level.
pub fn neighborhood_keys(center: CellKey) -> (keys: Vec<CellKey>)
    requires
        has_neighborhood(center),
    ensures
        keys@.len() == 27,
        forall|i: int| 0 <= i < 27 ==> #[trigger] keys@[i] == neighbor(center, i),
{
    let mut keys: Vec<CellKey> = Vec::new();
    let mut dx: i32 = -1;
    while dx <= 1
        invariant
            has_neighborhood(center),
            -1 <= dx <= 2,
            keys@.len() == 9 * (dx + 1),
            forall|i: int| 0 <= i < keys@.len() ==> #[trigger] keys@[i] == neighbor(center, i),
        decreases 2 - dx,
    {
        let mut dy: i32 = -1;
        while dy <= 1
            invariant
                has_neighborhood(center),
                -1 <= dx <= 1,
                -1 <= dy <= 2,
                keys@.len() == 9 * (dx + 1) + 3 * (dy + 1),
                forall|i: int| 0 <= i < keys@.len() ==> #[trigger] keys@[i] == neighbor(center, i),
            decreases 2 - dy,
        {
            let mut dz: i32 = -1;
            while dz <= 1
                invariant
                    has_neighborhood(center),
                    -1 <= dx <= 1,
                    -1 <= dy <= 1,
                    -1 <= dz <= 2,
                    keys@.len() == 9 * (dx + 1) + 3 * (dy + 1) + (dz + 1),
                    forall|i: int| 0 <= i < keys@.len() ==> #[trigger] keys@[i] == neighbor(center, i),
                decreases 2 - dz,
            {
                let k = CellKey { level: center.level, x: center.x + dx, y: center.y + dy, z: center.z + dz };
                proof {
                    let i = 9 * (dx + 1) + 3 * (dy + 1) + (dz + 1);
                    assert(i / 9 - 1 == dx) by (nonlinear_arith)
                        requires i == 9 * (dx + 1) + 3 * (dy + 1) + (dz + 1), -1 <= dx <= 1, -1 <= dy <= 1, -1 <= dz <= 1;
                    assert((i / 3) % 3 - 1 == dy) by (nonlinear_arith)
                        requires i == 9 * (dx + 1) + 3 * (dy + 1) + (dz + 1), -1 <= dx <= 1, -1 <= dy <= 1, -1 <= dz <= 1;
                    assert(i % 3 - 1 == dz) by (nonlinear_arith)
                        requires i == 9 * (dx + 1) + 3 * (dy + 1) + (dz + 1), -1 <= dx <= 1, -1 <= dy <= 1, -1 <= dz <= 1;
                    assert(k == neighbor(center, i));
                }
                keys.push(k);
                dz = dz + 1;
            }
            dy = dy + 1;
        }
        dx = dx + 1;
    }
    keys
}

/// `s` without the elements equal to `x`, in order.
pub open spec fn without<T>(s: Seq<T>, x: T) -> Seq<T>
    decreases s.len(),
{
    if s.len() == 0 {
        Seq::empty()
    } else if s[0] == x {
        without(s.drop_first(), x)
    } else {
        seq![s[0]] + without(s.drop_first(), x)
    }
}

/// An association list without the entries for key `k`.
pub open spec fn without_key<K, V>(s: Seq<(K, V)>, k: K) -> Seq<(K, V)>
    decreases s.len(),
{
    if s.len() == 0 {
        Seq::empty()
    } else if s[0].0 == k {
        without_key(s.drop_first(), k)
    } else {
        seq![s[0]] + without_key(s.drop_first(), k)
    }
}

proof fn lemma_without_key_lookup<K, V>(s: Seq<(K, V)>, k: K, q: K)
    ensures
        lookup(without_key(s, k), q) == (if q == k { None } else { lookup(s, q) }),
    decreases s.len(),
{
    if s.len() > 0 {
        lemma_without_key_lookup(s.drop_first(), k, q);
        if s[0].0 != k {
            let r = seq![s[0]] + without_key(s.drop_first(), k);
            assert(r.drop_first() =~= without_key(s.drop_first(), k));
        }
    }
}

fn remove_all_entities(v: Vec<Entity>, e: Entity) -> (r: Vec<Entity>)
    ensures
        r@ == without(v@, e),
{
    let ghost orig = v@;
    let mut out: Vec<Entity> = Vec::new();
    let mut i: usize = 0;
    proof {
        assert(orig.subrange(0, orig.len() as int) =~= orig);
        assert(out@ + without(orig.subrange(0, orig.len() as int), e) =~= without(orig, e));
    }
    while i < v.len()
        invariant
            v@ == orig,
            i <= orig.len(),
            out@ + without(orig.subrange(i as int, orig.len() as int), e) == without(orig, e),
        decreases orig.len() - i,
    {
        let x = v[i];
        proof {
            let rest = orig.subrange(i as int, orig.len() as int);
            assert(rest.drop_first() =~= orig.subrange(i + 1, orig.len() as int));
            assert(rest[0] == x);
        }
        if x != e {
            let ghost before = out@;
            out.push(x);
            proof {
                let rest = orig.subrange(i + 1, orig.len() as int);
                assert(out@ + without(rest, e) =~= before + (seq![x] + without(rest, e)));
            }
        }
        i = i + 1;
    }
    proof {
        assert(orig.subrange(orig.len() as int, orig.len() as int) =~= Seq::<Entity>::empty());
        assert(out@ =~= out@ + Seq::<Entity>::empty());
    }
    out
}

/// Cells of the spatial hash and the cell each entity is filed in. Positions and the
/// cells they fall in are computed by the caller.
#[derive(Debug)]
pub struct CellIndex {
    pub cells: Vec<(CellKey, Cell)>,
    pub entity_cells: Vec<(Entity, CellKey)>,
}

impl CellIndex {
    /// Entities filed in cell `k`.
    pub open spec fn entities_in(&self, k: CellKey) -> Seq<Entity> {
        match lookup(self.cells@, k) {
            Some(c) => c.entities@,
            None => Seq::empty(),
        }
    }

    /// Sessions subscribed to cell `k`.
    pub open spec fn subscribers_in(&self, k: CellKey) -> Seq<FwauId> {
        match lookup(self.cells@, k) {
            Some(c) => c.subscribers@,
            None => Seq::empty(),
        }
    }

    /// The cell entity `e` is filed in.
    pub open spec fn key_of(&self, e: Entity) -> Option<CellKey> {
        lookup(self.entity_cells@, e)
    }

    pub fn new() -> (g: Self)
        ensures
            forall|k: CellKey| #[trigger] g.entities_in(k) == Seq::<Entity>::empty(),
            forall|k: CellKey| #[trigger] g.subscribers_in(k) == Seq::<FwauId>::empty(),
            forall|e: Entity| #[trigger] g.key_of(e) == None::<CellKey>,
    {
        CellIndex { cells: Vec::new(), entity_cells: Vec::new() }
    }

    fn find_cell(&self, k: CellKey) -> (r: Option<usize>)
        ensures
            match r {
                Some(i) => first_at(self.cells@, k, i as int),
                None => forall|j: int| 0 <= j < self.cells@.len() ==> self.cells@[j].0 != k,
            },
    {
        let mut i: usize = 0;
        while i < self.cells.len()
            invariant
                i <= self.cells@.len(),
                forall|j: int| 0 <= j < i ==> self.cells@[j].0 != k,
            decreases self.cells@.len() - i,
        {
            if self.cells[i].0 == k {
                return Some(i);
            }
            i = i + 1;
        }
        None
    }

    fn find_entity(&self, e: Entity) -> (r: Option<usize>)
        ensures
            match r {
                Some(i) => first_at(self.entity_cells@, e, i as int),
                None => forall|j: int| 0 <= j < self.entity_cells@.len() ==> self.entity_cells@[j].0 != e,
            },
    {
        let mut i: usize = 0;
        while i < self.entity_cells.len()
            invariant
                i <= self.entity_cells@.len(),
                forall|j: int| 0 <= j < i ==> self.entity_cells@[j].0 != e,
            decreases self.entity_cells@.len() - i,
        {
            if self.entity_cells[i].0 == e {
                return Some(i);
            }
            i = i + 1;
        }
        None
    }

    /// Replaces the cell stored under `k` (creating it when absent) by `c`.
    fn put_cell(&mut self, k: CellKey, c: Cell)
        ensures
            lookup(final(self).cells@, k) == Some(c),
            forall|q: CellKey| q != k ==> #[trigger] lookup(final(self).cells@, q) == lookup(old(self).cells@, q),
            final(self).entity_cells@ == old(self).entity_cells@,
    {
        match self.find_cell(k) {
            Some(i) => {
                proof {
                    assert forall|q: CellKey| #[trigger] lookup(self.cells@.update(i as int, (k, c)), q)
                        == (if q == k { Some(c) } else { lookup(self.cells@, q) }) by {
                        lemma_lookup_update(self.cells@, k, i as int, c, q);
                    }
                }
                self.cells.set(i, (k, c));
            },
            None => {
                proof {
                    lemma_lookup_absent(self.cells@, k);
                    assert forall|q: CellKey| #[trigger] lookup(self.cells@.push((k, c)), q)
                        == (if q == k { Some(c) } else { lookup(self.cells@, q) }) by {
                        lemma_lookup_push(self.cells@, k, c, q);
                    }
                }
                self.cells.push((k, c));
            },
        }
    }

    /// Takes out the cell stored under `k`, or an empty one.
    fn take_cell(&mut self, k: CellKey) -> (c: Cell)
        ensures
            c.entities@ == old(self).entities_in(k),
            c.subscribers@ == old(self).subscribers_in(k),
            final(self).cells@ == old(self).cells@ || final(self).cells@.len() == old(self).cells@.len(),
            forall|q: CellKey| q != k ==> #[trigger] lookup(final(self).cells@, q) == lookup(old(self).cells@, q),
            final(self).entity_cells@ == old(self).entity_cells@,
    {
        match self.find_cell(k) {
            Some(i) => {
                proof {
                    lemma_lookup_first(self.cells@, k, i as int);
                }
                let empty = Cell { entities: Vec::new(), subscribers: Vec::new() };
                let (_, c) = self.cells.remove(i);
                let ghost removed = self.cells@;
                self.cells.insert(i, (k, empty));
                proof {
                    assert(self.cells@ =~= old(self).cells@.update(i as int, (k, empty)));
                    assert forall|q: CellKey| q != k implies #[trigger] lookup(self.cells@, q)
                        == lookup(old(self).cells@, q) by {
                        lemma_lookup_update(old(self).cells@, k, i as int, empty, q);
                    }
                }
                c
            },
            None => {
                proof {
                    lemma_lookup_absent(self.cells@, k);
                }
                Cell { entities: Vec::new(), subscribers: Vec::new() }
            },
        }
    }

    /// Files `e` under `k` and adds it to that cell.
    pub fn insert_entity(&mut self, e: Entity, k: CellKey)
        ensures
            final(self).key_of(e) == Some(k),
            forall|x: Entity| x != e ==> #[trigger] final(self).key_of(x) == old(self).key_of(x),
            final(self).entities_in(k) == old(self).entities_in(k).push(e),
            forall|q: CellKey| q != k ==> #[trigger] final(self).entities_in(q) == old(self).entities_in(q),
            forall|q: CellKey| #[trigger] final(self).subscribers_in(q) == old(self).subscribers_in(q),
    {
        self.set_key(e, k);
        let ghost mid: CellIndex = *self;
        let ghost keyed = self.entity_cells@;
        let mut c = self.take_cell(k);
        c.entities.push(e);
        self.put_cell(k, c);
        proof {
            assert(self.entity_cells@ == keyed);
            assert forall|x: Entity| x != e implies #[trigger] self.key_of(x) == old(self).key_of(x) by {
                assert(mid.key_of(x) == old(self).key_of(x));
            }
        }
    }

    fn set_key(&mut self, e: Entity, k: CellKey)
        ensures
            final(self).key_of(e) == Some(k),
            forall|x: Entity| x != e ==> #[trigger] final(self).key_of(x) == old(self).key_of(x),
            final(self).cells@ == old(self).cells@,
    {
        match self.find_entity(e) {
            Some(i) => {
                proof {
                    assert forall|q: Entity| #[trigger] lookup(self.entity_cells@.update(i as int, (e, k)), q)
                        == (if q == e { Some(k) } else { lookup(self.entity_cells@, q) }) by {
                        lemma_lookup_update(self.entity_cells@, e, i as int, k, q);
                    }
                }
                self.entity_cells.set(i, (e, k));
            },
            None => {
                proof {
                    lemma_lookup_absent(self.entity_cells@, e);
                    assert forall|q: Entity| #[trigger] lookup(self.entity_cells@.push((e, k)), q)
                        == (if q == e { Some(k) } else { lookup(self.entity_cells@, q) }) by {
                        lemma_lookup_push(self.entity_cells@, e, k, q);
                    }
                }
                self.entity_cells.push((e, k));
            },
        }
    }

    fn drop_key(&mut self, e: Entity)
        ensures
            final(self).key_of(e) == None::<CellKey>,
            forall|x: Entity| x != e ==> #[trigger] final(self).key_of(x) == old(self).key_of(x),
            final(self).cells@ == old(self).cells@,
    {
        let ghost orig = self.entity_cells@;
        let mut kept: Vec<(Entity, CellKey)> = Vec::new();
        let mut i: usize = 0;
        proof {
            assert(orig.subrange(0, orig.len() as int) =~= orig);
            assert(kept@ + without_key(orig.subrange(0, orig.len() as int), e) =~= without_key(orig, e));
        }
        while i < self.entity_cells.len()
            invariant
                self.entity_cells@ == orig,
                self.cells@ == old(self).cells@,
                i <= orig.len(),
                kept@ + without_key(orig.subrange(i as int, orig.len() as int), e) == without_key(orig, e),
            decreases orig.len() - i,
        {
            let x = self.entity_cells[i];
            proof {
                let rest = orig.subrange(i as int, orig.len() as int);
                assert(rest.drop_first() =~= orig.subrange(i + 1, orig.len() as int));
                assert(rest[0] == x);
            }
            if x.0 != e {
                let ghost before = kept@;
                kept.push(x);
                proof {
                    let rest = orig.subrange(i + 1, orig.len() as int);
                    assert(kept@ + without_key(rest, e) =~= before + (seq![x] + without_key(rest, e)));
                }
            }
            i = i + 1;
        }
        proof {
            assert(orig.subrange(orig.len() as int, orig.len() as int) =~= Seq::<(Entity, CellKey)>::empty());
            assert(kept@ =~= without_key(orig, e));
            assert forall|q: Entity| #[trigger] lookup(kept@, q) == (if q == e { None } else { lookup(orig, q) }) by {
                lemma_without_key_lookup(orig, e, q);
            }
        }
        self.entity_cells = kept;
    }

    /// Unfiles `e` and removes it from the cell it was filed in.
    pub fn remove_entity(&mut self, e: Entity)
        ensures
            final(self).key_of(e) == None::<CellKey>,
            forall|x: Entity| x != e ==> #[trigger] final(self).key_of(x) == old(self).key_of(x),
            forall|q: CellKey| #[trigger] final(self).entities_in(q) == if old(self).key_of(e) == Some(q) {
                without(old(self).entities_in(q), e)
            } else {
                old(self).entities_in(q)
            },
            forall|q: CellKey| #[trigger] final(self).subscribers_in(q) == old(self).subscribers_in(q),
    {
        match self.find_entity(e) {
            Some(i) => {
                let k = self.entity_cells[i].1;
                proof {
                    lemma_lookup_first(self.entity_cells@, e, i as int);
                }
                self.drop_key(e);
                let ghost mid: CellIndex = *self;
                let ghost keyed = self.entity_cells@;
                match self.find_cell(k) {
                    Some(_) => {
                        let mut c = self.take_cell(k);
                        let kept = remove_all_entities(c.entities, e);
                        c.entities = kept;
                        self.put_cell(k, c);
                        proof {
                            assert(self.entity_cells@ == keyed);
                            assert forall|x: Entity| x != e implies #[trigger] self.key_of(x) == old(self).key_of(x) by {
                                assert(mid.key_of(x) == old(self).key_of(x));
                            }
                        }
                    },
                    None => {
                        proof {
                            lemma_lookup_absent(self.cells@, k);
                        }
                    },
                }
            },
            None => {
                proof {
                    lemma_lookup_absent(self.entity_cells@, e);
                }
            },
        }
    }
}

/// Distinct positions of the block name distinct cells.
pub proof fn lemma_neighbors_distinct(center: CellKey, i: int, j: int)
    requires
        has_neighborhood(center),
        0 <= i < 27,
        0 <= j < 27,
        i != j,
    ensures
        neighbor(center, i) != neighbor(center, j),
{
    assert(i / 9 != j / 9 || (i / 3) % 3 != (j / 3) % 3 || i % 3 != j % 3) by (nonlinear_arith)
        requires
            0 <= i < 27,
            0 <= j < 27,
            i != j,
    ;
}

/// Cell `q`'s entities after `e` moves from its cell to `new_key`.
pub open spec fn moved_entities(g: CellIndex, e: Entity, new_key: CellKey, q: CellKey) -> Seq<Entity> {
    let base = if g.key_of(e) == Some(q) { without(g.entities_in(q), e) } else { g.entities_in(q) };
    if q == new_key { base.push(e) } else { base }
}

/// `x` is one of the first `n` cells of the block around `center`.
pub open spec fn in_block(center: CellKey, n: int, x: CellKey) -> bool {
    exists|i: int| 0 <= i < n && neighbor(center, i) == x
}

/// Sequences that hold each element once, as sets.
pub open spec fn sym_diff(a: Seq<FwauId>, b: Seq<FwauId>) -> Set<FwauId> {
    a.to_set().difference(b.to_set()).union(b.to_set().difference(a.to_set()))
}

fn contains_fwau(v: &Vec<FwauId>, f: FwauId) -> (r: bool)
    ensures
        r == v@.contains(f),
{
    let mut i: usize = 0;
    while i < v.len()
        invariant
            i <= v@.len(),
            forall|k: int| 0 <= k < i ==> v@[k] != f,
        decreases v@.len() - i,
    {
        if v[i] == f {
            return true;
        }
        i = i + 1;
    }
    false
}

/// Adds to `out` every element of `a` that is not in `b` nor already in `out`.
fn add_missing(out: &mut Vec<FwauId>, a: &Vec<FwauId>, b: &Vec<FwauId>)
    requires
        old(out)@.no_duplicates(),
    ensures
        final(out)@.no_duplicates(),
        final(out)@.to_set() == old(out)@.to_set().union(a@.to_set().difference(b@.to_set())),
{
    let mut i: usize = 0;
    while i < a.len()
        invariant
            i <= a@.len(),
            out@.no_duplicates(),
            out@.to_set() == old(out)@.to_set().union(a@.take(i as int).to_set().difference(b@.to_set())),
        decreases a@.len() - i,
    {
        let x = a[i];
        proof {
            assert(a@.take(i + 1) =~= a@.take(i as int).push(x));
            a@.take(i as int).lemma_push_to_set_commute(x);
        }
        if !contains_fwau(b, x) && !contains_fwau(out, x) {
            let ghost before = out@;
            out.push(x);
            proof {
                before.lemma_push_to_set_commute(x);
                assert(out@.no_duplicates()) by {
                    assert forall|p: int, q: int| 0 <= p < out@.len() && 0 <= q < out@.len() && p != q
                        implies out@[p] != out@[q] by {
                        if p == before.len() {
                            assert(before.contains(out@[q]) || q == p);
                        } else if q == before.len() {
                            assert(before.contains(out@[p]));
                        }
                    }
                }
                assert(out@.to_set() =~= old(out)@.to_set().union(a@.take(i + 1).to_set().difference(b@.to_set())));
            }
        } else {
            proof {
                if b@.contains(x) {
                    assert(b@.to_set().contains(x));
                } else {
                    assert(out@.to_set().contains(x));
                }
                assert(out@.to_set() =~= old(out)@.to_set().union(a@.take(i + 1).to_set().difference(b@.to_set())));
            }
        }
        i = i + 1;
    }
    proof {
        assert(a@.take(a@.len() as int) =~= a@);
    }
}

impl CellIndex {
    /// Subscribes `fwau` to the 3 x 3 x 3 block of cells around `k`.
    pub fn subscribe_fwau(&mut self, fwau: FwauId, k: CellKey)
        requires
            has_neighborhood(k),
        ensures
            forall|q: CellKey| #[trigger] final(self).subscribers_in(q) == if in_block(k, 27, q) {
                old(self).subscribers_in(q).push(fwau)
            } else {
                old(self).subscribers_in(q)
            },
            forall|q: CellKey| #[trigger] final(self).entities_in(q) == old(self).entities_in(q),
            forall|e: Entity| #[trigger] final(self).key_of(e) == old(self).key_of(e),
    {
        let keys = neighborhood_keys(k);
        let mut i: usize = 0;
        while i < 27
            invariant
                has_neighborhood(k),
                i <= 27,
                keys@.len() == 27,
                forall|j: int| 0 <= j < 27 ==> #[trigger] keys@[j] == neighbor(k, j),
                forall|q: CellKey| #[trigger] self.subscribers_in(q) == if in_block(k, i as int, q) {
                    old(self).subscribers_in(q).push(fwau)
                } else {
                    old(self).subscribers_in(q)
                },
                forall|q: CellKey| #[trigger] self.entities_in(q) == old(self).entities_in(q),
                self.entity_cells@ == old(self).entity_cells@,
            decreases 27 - i,
        {
            let nk = keys[i];
            let ghost mid: CellIndex = *self;
            proof {
                assert(!in_block(k, i as int, nk)) by {
                    if in_block(k, i as int, nk) {
                        let j = choose|j: int| 0 <= j < i && neighbor(k, j) == nk;
                        lemma_neighbors_distinct(k, j, i as int);
                    }
                }
            }
            let mut c = self.take_cell(nk);
            c.subscribers.push(fwau);
            self.put_cell(nk, c);
            proof {
                assert forall|q: CellKey| #[trigger] self.subscribers_in(q) == if in_block(k, i + 1, q) {
                    old(self).subscribers_in(q).push(fwau)
                } else {
                    old(self).subscribers_in(q)
                } by {
                    if q == nk {
                        assert(in_block(k, i + 1, q)) by {
                            assert(neighbor(k, i as int) == q);
                        }
                        assert(mid.subscribers_in(q) == old(self).subscribers_in(q));
                    } else {
                        assert(mid.subscribers_in(q) == self.subscribers_in(q));
                        if in_block(k, i + 1, q) {
                            let j = choose|j: int| 0 <= j < i + 1 && neighbor(k, j) == q;
                            assert(j != i);
                            assert(in_block(k, i as int, q));
                        } else {
                            assert(!in_block(k, i as int, q)) by {
                                if in_block(k, i as int, q) {
                                    let j = choose|j: int| 0 <= j < i && neighbor(k, j) == q;
                                    assert(0 <= j < i + 1 && neighbor(k, j) == q);
                                }
                            }
                        }
                    }
                }
                assert forall|q: CellKey| #[trigger] self.entities_in(q) == old(self).entities_in(q) by {
                    assert(mid.entities_in(q) == old(self).entities_in(q));
                }
            }
            i = i + 1;
        }
    }

    /// Moves `e` into cell `new_key`. When it changes cell it leaves the old one and
    /// joins the new one, and the result holds, once each, the sessions subscribed to
    /// exactly one of the two cells; when it stays, nothing changes and the result is empty.
    pub fn on_move(&mut self, e: Entity, new_key: CellKey) -> (dirty: Vec<FwauId>)
        ensures
            final(self).key_of(e) == Some(new_key),
            forall|x: Entity| x != e ==> #[trigger] final(self).key_of(x) == old(self).key_of(x),
            forall|q: CellKey| #[trigger] final(self).subscribers_in(q) == old(self).subscribers_in(q),
            old(self).key_of(e) == Some(new_key) ==> dirty@ == Seq::<FwauId>::empty()
                && forall|q: CellKey| #[trigger] final(self).entities_in(q) == old(self).entities_in(q),
            old(self).key_of(e) != Some(new_key) ==> {
                &&& dirty@.no_duplicates()
                &&& dirty@.to_set() == sym_diff(
                    match old(self).key_of(e) {
                        Some(o) => old(self).subscribers_in(o),
                        None => Seq::empty(),
                    },
                    old(self).subscribers_in(new_key),
                )
                &&& forall|q: CellKey| #[trigger] final(self).entities_in(q) == moved_entities(*old(self), e, new_key, q)
            },
    {
        let old_key: Option<CellKey> = match self.find_entity(e) {
            Some(i) => {
                proof {
                    lemma_lookup_first(self.entity_cells@, e, i as int);
                }
                Some(self.entity_cells[i].1)
            },
            None => {
                proof {
                    lemma_lookup_absent(self.entity_cells@, e);
                }
                None
            },
        };
        if old_key == Some(new_key) {
            return Vec::new();
        }
        let ghost start: CellIndex = *self;
        let old_subs: Vec<FwauId> = match old_key {
            Some(o) => {
                let c = self.take_cell(o);
                let subs = c.subscribers;
                let kept = remove_all_entities(c.entities, e);
                let mut subs_copy: Vec<FwauId> = Vec::new();
                let mut j: usize = 0;
                while j < subs.len()
                    invariant
                        j <= subs@.len(),
                        subs_copy@ == subs@.take(j as int),
                    decreases subs@.len() - j,
                {
                    subs_copy.push(subs[j]);
                    proof {
                        assert(subs@.take(j + 1) =~= subs@.take(j as int).push(subs@[j as int]));
                    }
                    j = j + 1;
                }
                proof {
                    assert(subs@.take(subs@.len() as int) =~= subs@);
                }
                self.put_cell(o, Cell { entities: kept, subscribers: subs });
                subs_copy
            },
            None => Vec::new(),
        };
        let ghost after_leave: CellIndex = *self;
        proof {
            assert(after_leave.entity_cells@ == start.entity_cells@);
            assert forall|q: CellKey| #[trigger] after_leave.subscribers_in(q) == start.subscribers_in(q) by {
                if old_key is Some {
                    let o = old_key->Some_0;
                    if q != o {
                        assert(lookup(after_leave.cells@, q) == lookup(start.cells@, q));
                    }
                }
            }
            assert forall|q: CellKey| #[trigger] after_leave.entities_in(q) == (if start.key_of(e) == Some(q) {
                without(start.entities_in(q), e)
            } else {
                start.entities_in(q)
            }) by {
                if old_key is Some {
                    let o = old_key->Some_0;
                    if q != o {
                        assert(lookup(after_leave.cells@, q) == lookup(start.cells@, q));
                    }
                }
            }
            match old_key {
                Some(o) => assert(old_subs@ == start.subscribers_in(o)),
                None => assert(old_subs@ == Seq::<FwauId>::empty()),
            }
        }
        self.insert_entity(e, new_key);
        let ghost mid: CellIndex = *self;
        let new_cell = self.take_cell(new_key);
        proof {
            assert(new_cell.subscribers@ == start.subscribers_in(new_key)) by {
                assert(mid.subscribers_in(new_key) == after_leave.subscribers_in(new_key));
            }
        }
        let mut dirty: Vec<FwauId> = Vec::new();
        proof {
            assert(dirty@.to_set() =~= Set::<FwauId>::empty());
        }
        add_missing(&mut dirty, &old_subs, &new_cell.subscribers);
        add_missing(&mut dirty, &new_cell.subscribers, &old_subs);
        let ghost nc = new_cell;
        self.put_cell(new_key, new_cell);
        proof {
            assert(self.entity_cells@ == mid.entity_cells@);
            assert forall|x: Entity| x != e implies #[trigger] self.key_of(x) == old(self).key_of(x) by {
                assert(mid.key_of(x) == after_leave.key_of(x));
                assert(after_leave.key_of(x) == start.key_of(x));
            }
            assert(self.key_of(e) == mid.key_of(e));
            assert(lookup(self.cells@, new_key) == Some(nc));
            assert forall|q: CellKey| #[trigger] self.subscribers_in(q) == old(self).subscribers_in(q) by {
                assert(mid.subscribers_in(q) == after_leave.subscribers_in(q));
                if q != new_key {
                    assert(lookup(self.cells@, q) == lookup(mid.cells@, q));
                }
            }
            assert forall|q: CellKey| #[trigger] self.entities_in(q) == moved_entities(*old(self), e, new_key, q) by {
                if q != new_key {
                    assert(lookup(self.cells@, q) == lookup(mid.cells@, q));
                    assert(mid.entities_in(q) == after_leave.entities_in(q));
                } else {
                    assert(mid.entities_in(q) == after_leave.entities_in(q).push(e));
                    assert(start.key_of(e) != Some(q));
                }
            }
            assert(dirty@.to_set() =~= sym_diff(
                match old(self).key_of(e) {
                    Some(o) => old(self).subscribers_in(o),
                    None => Seq::empty(),
                },
                old(self).subscribers_in(new_key),
            ));
        }
        dirty
    }
}

/// Entities filed in the first `n` cells of the block around `center`, cell by cell.
pub open spec fn block_entities(g: CellIndex, center: CellKey, n: int) -> Seq<Entity>
    decreases n,
{
    if n <= 0 {
        Seq::empty()
    } else {
        block_entities(g, center, n - 1) + g.entities_in(neighbor(center, n - 1))
    }
}

impl CellIndex {
    /// Appends the entities filed in cell `k` to `out`.
    fn append_cell_entities(&self, k: CellKey, out: &mut Vec<Entity>)
        ensures
            final(out)@ == old(out)@ + self.entities_in(k),
    {
        match self.find_cell(k) {
            Some(i) => {
                proof {
                    lemma_lookup_first(self.cells@, k, i as int);
                }
                let ents = &self.cells[i].1.entities;
                let ghost start = out@;
                let mut j: usize = 0;
                while j < ents.len()
                    invariant
                        j <= ents@.len(),
                        out@ == start + ents@.take(j as int),
                    decreases ents@.len() - j,
                {
                    out.push(ents[j]);
                    proof {
                        assert(ents@.take(j + 1) =~= ents@.take(j as int).push(ents@[j as int]));
                    }
                    j = j + 1;
                }
                proof {
                    assert(ents@.take(ents@.len() as int) =~= ents@);
                }
            },
            None => {
                proof {
                    lemma_lookup_absent(self.cells@, k);
                    assert(out@ =~= out@ + Seq::<Entity>::empty());
                }
            },
        }
    }

    /// The entities filed in the 27 cells around `center`: the candidates a proximity
    /// query then filters by distance.
    pub fn entities_near(&self, center: CellKey) -> (out: Vec<Entity>)
        requires
            has_neighborhood(center),
        ensures
            out@ == block_entities(*self, center, 27),
    {
        let keys = neighborhood_keys(center);
        let mut out: Vec<Entity> = Vec::new();
        let mut i: usize = 0;
        while i < 27
            invariant
                i <= 27,
                keys@.len() == 27,
                forall|j: int| 0 <= j < 27 ==> #[trigger] keys@[j] == neighbor(center, j),
                out@ == block_entities(*self, center, i as int),
            decreases 27 - i,
        {
            self.append_cell_entities(keys[i], &mut out);
            i = i + 1;
        }
        out
    }
}

} // verus!
