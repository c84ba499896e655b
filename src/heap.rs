//! The runtime's values and the mark-and-sweep memory manager.
use vstd::prelude::*;
use crate::interner::{hash_string, index_get, index_insert, index_new, index_remove};

verus! {

/// A runtime value. A number is held as the bit pattern of its `f64`; the
/// library only moves it around.
#[derive(Debug, Clone, Copy, PartialEq, Eq, Structural)]
pub enum Value {
    Bool(bool),
    Nil,
    Number(u64),
    StringLiteral { start_index: u32, end_index: u32 },
    /// An object of the memory manager, by its slot.
    Heap(usize),
    Function { function_index: u32 },
    ReturnAdress { ip: usize },
}

impl Value {
    /// `false` and `nil` are falsy; every other value is truthy.
    pub fn is_truthy(&self) -> (r: bool)
        ensures
            r == !(*self == Value::Bool(false) || *self == Value::Nil),
    {
        match self {
            Value::Bool(false) | Value::Nil => false,
            _ => true,
        }
    }
}

#[derive(Debug)]
pub enum HeapValue {
    String(Vec<char>),
    List(Vec<Value>),
}

/// The objects that `v` refers to directly.
pub open spec fn refers_to(v: Value, j: int) -> bool {
    v is Heap && v->Heap_0 == j
}

/// Whether the payload holds a reference to slot `j`.
pub open spec fn payload_refers_to(p: HeapValue, j: int) -> bool {
    match p {
        HeapValue::String(_) => false,
        HeapValue::List(l) => exists|k: int| 0 <= k < l@.len() && refers_to(#[trigger] l@[k], j),
    }
}

proof fn lemma_push_keeps(s: Seq<usize>, x: usize)
    ensures
        s.push(x).contains(x),
        forall|y: usize| s.contains(y) ==> #[trigger] s.push(x).contains(y),
{
    assert(s.push(x)[s.len() as int] == x);
    assert forall|y: usize| s.contains(y) implies #[trigger] s.push(x).contains(y) by {
        let k = choose|k: int| 0 <= k < s.len() && s[k] == y;
        assert(s.push(x)[k] == y);
    }
}

proof fn lemma_pop_keeps(s: Seq<usize>)
    requires
        s.len() > 0,
    ensures
        forall|y: usize| s.contains(y) && y != s.last() ==> #[trigger] s.drop_last().contains(y),
{
    assert forall|y: usize| s.contains(y) && y != s.last() implies #[trigger] s.drop_last().contains(y) by {
        let k = choose|k: int| 0 <= k < s.len() && s[k] == y;
        assert(k != s.len() - 1);
        assert(s.drop_last()[k] == y);
    }
}

fn chars_equal(a: &Vec<char>, b: &Vec<char>) -> (r: bool)
    ensures
        r == (a@ == b@),
{
    if a.len() != b.len() {
        return false;
    }
    let mut k: usize = 0;
    while k < a.len()
        invariant
            a@.len() == b@.len(),
            k <= a@.len(),
            forall|m: int| 0 <= m < k ==> a@[m] == b@[m],
        decreases a@.len() - k,
    {
        if a[k] != b[k] {
            return false;
        }
        k = k + 1;
    }
    assert(a@ =~= b@);
    true
}

/// How many slots of the table hold an object.
pub open spec fn live_in(objs: Seq<Option<HeapValue>>) -> nat
    decreases objs.len(),
{
    if objs.len() == 0 {
        0
    } else {
        live_in(objs.drop_last()) + (if objs.last() is Some {
            1nat
        } else {
            0nat
        })
    }
}

/// `n` as a counter that stops at `u64::MAX`.
pub open spec fn saturated(n: int) -> u64 {
    if n >= u64::MAX {
        u64::MAX
    } else if n <= 0 {
        0
    } else {
        n as u64
    }
}

proof fn lemma_live_in_bound(objs: Seq<Option<HeapValue>>)
    ensures
        live_in(objs) <= objs.len(),
    decreases objs.len(),
{
    if objs.len() > 0 {
        lemma_live_in_bound(objs.drop_last());
    }
}

proof fn lemma_live_in_none(objs: Seq<Option<HeapValue>>)
    requires
        forall|x: int| 0 <= x < objs.len() ==> objs[x] is None,
    ensures
        live_in(objs) == 0,
    decreases objs.len(),
{
    if objs.len() > 0 {
        assert(objs.last() is None);
        assert forall|x: int| 0 <= x < objs.drop_last().len() implies objs.drop_last()[x] is None by {
            assert(objs.drop_last()[x] == objs[x]);
        }
        lemma_live_in_none(objs.drop_last());
    }
}

proof fn lemma_live_in_update(objs: Seq<Option<HeapValue>>, i: int, v: Option<HeapValue>)
    requires
        0 <= i < objs.len(),
    ensures
        live_in(objs.update(i, v)) + (if objs[i] is Some {
            1int
        } else {
            0int
        }) == live_in(objs) + (if v is Some {
            1int
        } else {
            0int
        }),
    decreases objs.len(),
{
    let u = objs.update(i, v);
    if i == objs.len() - 1 {
        assert(u.drop_last() =~= objs.drop_last());
    } else {
        assert(u.drop_last() =~= objs.drop_last().update(i, v));
        lemma_live_in_update(objs.drop_last(), i, v);
    }
}

pub struct MemoryManager {
    objects: Vec<Option<HeapValue>>,
    marks: Vec<bool>,
    intern_string_map: intmap::IntMap<u64, usize>,
    total_allocs: u64,
    total_deallocs: u64,
}

impl MemoryManager {
    pub closed spec fn slots(&self) -> nat {
        self.objects@.len()
    }

    pub closed spec fn live(&self, i: int) -> bool {
        0 <= i < self.objects@.len() && self.objects@[i] is Some
    }

    pub closed spec fn marked(&self, i: int) -> bool {
        0 <= i < self.marks@.len() && self.marks@[i]
    }

    pub closed spec fn payload(&self, i: int) -> HeapValue {
        self.objects@[i]->Some_0
    }

    /// Whether `v` refers to no object, or to a live one.
    pub open spec fn value_ok(&self, v: Value) -> bool {
        v matches Value::Heap(j) ==> self.live(j as int)
    }

    pub closed spec fn children_live(&self) -> bool {
        forall|i: int, j: int|
            self.live(i) && #[trigger] payload_refers_to(self.payload(i), j) ==> self.live(j)
    }

    /// How many objects are live.
    pub closed spec fn live_count(&self) -> nat {
        live_in(self.objects@)
    }

    /// The counters: objects allocated, and objects freed.
    pub closed spec fn counters(&self) -> (u64, u64) {
        (self.total_allocs, self.total_deallocs)
    }

    /// Every slot was allocated once; a slot without an object was freed.
    pub closed spec fn counted(&self) -> bool {
        &&& self.total_allocs == saturated(self.objects@.len() as int)
        &&& self.total_deallocs == saturated(self.objects@.len() - live_in(self.objects@))
    }

    pub closed spec fn wf(&self) -> bool {
        &&& self.counted()
        &&& self.objects@.len() == self.marks@.len()
        &&& self.children_live()
        &&& forall|i: int| #[trigger] self.marked(i) ==> self.live(i)
    }

    /// Between collections no object is marked.
    pub open spec fn unmarked(&self) -> bool {
        forall|i: int| !#[trigger] self.marked(i)
    }

    /// `s` holds the objects that `roots` and `extra` refer to, and with
    /// each live object in it, the objects it refers to.
    pub open spec fn closed_set(&self, roots: Seq<Value>, extra: Option<usize>, s: Set<int>) -> bool {
        &&& forall|k: int|
            0 <= k < roots.len() && (#[trigger] roots[k]) is Heap ==> s.contains(
                roots[k]->Heap_0 as int,
            )
        &&& extra matches Some(e) ==> s.contains(e as int)
        &&& forall|i: int, j: int|
            s.contains(i) && self.live(i) && #[trigger] payload_refers_to(self.payload(i), j)
                ==> s.contains(j)
    }

    /// Reachable from the roots: in every set that holds the roots and is
    /// closed under references.
    pub open spec fn reachable(&self, roots: Seq<Value>, extra: Option<usize>, i: int) -> bool {
        forall|s: Set<int>| #[trigger] self.closed_set(roots, extra, s) ==> s.contains(i)
    }

    pub fn new() -> (r: Self)
        ensures
            r.wf(),
            r.unmarked(),
            r.slots() == 0,
    {
        MemoryManager {
            objects: Vec::new(),
            marks: Vec::new(),
            intern_string_map: index_new(),
            total_allocs: 0,
            total_deallocs: 0,
        }
    }

    /// How many objects were allocated and freed so far.
    pub fn stats(&self) -> (r: (u64, u64))
        requires
            self.wf(),
        ensures
            r == self.counters(),
            r.0 == saturated(self.slots() as int),
            r.1 == saturated(self.slots() - self.live_count()),
    {
        (self.total_allocs, self.total_deallocs)
    }

    pub fn slot_count(&self) -> (r: usize)
        ensures
            r == self.slots(),
    {
        self.objects.len()
    }

    pub fn is_live(&self, i: usize) -> (r: bool)
        ensures
            r == self.live(i as int),
    {
        i < self.objects.len() && self.objects[i].is_some()
    }

    /// The object at slot `i`, if it is live.
    pub fn get(&self, i: usize) -> (r: Option<&HeapValue>)
        ensures
            r is Some <==> self.live(i as int),
            r matches Some(p) ==> *p == self.payload(i as int),
    {
        if i < self.objects.len() {
            match &self.objects[i] {
                Some(p) => Some(p),
                None => None,
            }
        } else {
            None
        }
    }

    /// Live objects not yet marked, among the first `n` slots.
    pub closed spec fn pending(&self, n: int) -> nat
        decreases n,
    {
        if n <= 0 {
            0
        } else {
            self.pending(n - 1) + (if self.live(n - 1) && !self.marked(n - 1) {
                1nat
            } else {
                0nat
            })
        }
    }

    proof fn lemma_mark_one(a: &Self, b: &Self, i: int, n: int)
        requires
            a.objects@ == b.objects@,
            a.marks@.len() == a.objects@.len(),
            b.marks@ == a.marks@.update(i, true),
            a.live(i),
            !a.marked(i),
            0 <= n <= a.objects@.len(),
        ensures
            n <= i ==> b.pending(n) == a.pending(n),
            n > i ==> b.pending(n) + 1 == a.pending(n),
        decreases n,
    {
        if n > 0 {
            Self::lemma_mark_one(a, b, i, n - 1);
        }
    }

    /// Marks every object reachable from the roots.
    fn mark(&mut self, roots: &[Value], extra: Option<usize>)
        requires
            old(self).wf(),
            old(self).unmarked(),
            forall|k: int| 0 <= k < roots@.len() ==> old(self).value_ok(#[trigger] roots@[k]),
            extra matches Some(e) ==> old(self).live(e as int),
        ensures
            final(self).objects@ == old(self).objects@,
            final(self).intern_string_map == old(self).intern_string_map,
            final(self).total_allocs == old(self).total_allocs,
            final(self).total_deallocs == old(self).total_deallocs,
            final(self).wf(),
            final(self).closed_set(roots@, extra, Set::new(|i: int| final(self).marked(i))),
            forall|i: int| #[trigger] final(self).marked(i) ==> old(self).reachable(roots@, extra, i),
    {
        let n = self.objects.len();
        let mut work: Vec<usize> = Vec::new();
        let mut k: usize = 0;
        while k < roots.len()
            invariant
                k <= roots@.len(),
                *self == *old(self),
                forall|q: int|
                    0 <= q < k && (#[trigger] roots@[q]) is Heap ==> work@.contains(
                        roots@[q]->Heap_0,
                    ),
                forall|w: int| 0 <= w < work@.len() ==> old(self).reachable(roots@, extra, #[trigger] work@[w] as int),
            decreases roots@.len() - k,
        {
            let ghost w0 = work@;
            if let Value::Heap(j) = roots[k] {
                work.push(j);
                proof {
                    lemma_push_keeps(w0, j);
                    old(self).lemma_roots_reachable(roots@, extra, k as int);
                    assert forall|w: int| 0 <= w < work@.len() implies old(self).reachable(roots@, extra, #[trigger] work@[w] as int) by {
                        if w < w0.len() {
                            assert(work@[w] == w0[w]);
                        }
                    }
                }
            }
            k = k + 1;
        }
        if let Some(e) = extra {
            let ghost w0 = work@;
            work.push(e);
            proof {
                lemma_push_keeps(w0, e);
                old(self).lemma_extra_reachable(roots@, e);
                assert forall|w: int| 0 <= w < work@.len() implies old(self).reachable(roots@, extra, #[trigger] work@[w] as int) by {
                    if w < w0.len() {
                        assert(work@[w] == w0[w]);
                    }
                }
            }
        }
        while work.len() > 0
            invariant
                self.objects@ == old(self).objects@,
                self.intern_string_map == old(self).intern_string_map,
                self.total_allocs == old(self).total_allocs,
                self.total_deallocs == old(self).total_deallocs,
                n == self.objects@.len(),
                self.wf(),
                forall|k: int| 0 <= k < roots@.len() ==> old(self).value_ok(#[trigger] roots@[k]),
                extra matches Some(e) ==> old(self).live(e as int),
                forall|q: int|
                    0 <= q < roots@.len() && (#[trigger] roots@[q]) is Heap ==> self.marked(
                        roots@[q]->Heap_0 as int,
                    ) || work@.contains(roots@[q]->Heap_0),
                extra matches Some(e) ==> self.marked(e as int) || work@.contains(e),
                forall|i: int, j: int|
                    self.marked(i) && #[trigger] payload_refers_to(self.payload(i), j) ==> self.marked(j)
                        || work@.contains(j as usize),
                forall|w: int| 0 <= w < work@.len() ==> old(self).reachable(roots@, extra, #[trigger] work@[w] as int),
                forall|i: int| #[trigger] self.marked(i) ==> old(self).reachable(roots@, extra, i),
            decreases self.pending(n as int), work@.len(),
        {
            let ghost w0 = work@;
            let ghost before = *self;
            let i = work.pop().unwrap();
            proof {
                lemma_pop_keeps(w0);
                assert(i == w0.last());
                assert(work@ == w0.drop_last());
                assert(old(self).reachable(roots@, extra, w0[w0.len() - 1] as int));
                assert forall|w: int| 0 <= w < work@.len() implies old(self).reachable(roots@, extra, #[trigger] work@[w] as int) by {
                    assert(work@[w] == w0[w]);
                }
            }
            if i < n && self.objects[i].is_some() && !self.marks[i] {
                self.marks[i] = true;
                proof {
                    Self::lemma_mark_one(&before, &*self, i as int, n as int);
                    assert forall|x: int| #[trigger] self.marked(x) implies self.live(x) by {
                        if x != i {
                            assert(before.marked(x));
                        }
                    }
                    assert forall|x: int| #[trigger] self.marked(x) implies old(self).reachable(roots@, extra, x) by {
                        if x != i {
                            assert(before.marked(x));
                        }
                    }
                    assert forall|x: int, j: int|
                        self.live(x) && #[trigger] payload_refers_to(self.payload(x), j) implies self.live(j) by {
                        assert(payload_refers_to(before.payload(x), j));
                    }
                }
                let ghost w1 = work@;
                match &self.objects[i] {
                    Some(HeapValue::List(l)) => {
                        let mut c: usize = 0;
                        while c < l.len()
                            invariant
                                c <= l@.len(),
                                w1.is_prefix_of(work@),
                                *l == self.payload(i as int)->List_0,
                                self.payload(i as int) is List,
                                self.live(i as int),
                                old(self).reachable(roots@, extra, i as int),
                                self.objects@ == old(self).objects@,
                                forall|w: int| 0 <= w < work@.len() ==> old(self).reachable(roots@, extra, #[trigger] work@[w] as int),
                                forall|q: int|
                                    0 <= q < c && (#[trigger] l@[q]) is Heap ==> work@.contains(
                                        l@[q]->Heap_0,
                                    ),
                            decreases l@.len() - c,
                        {
                            let ghost wc = work@;
                            if let Value::Heap(j) = l[c] {
                                work.push(j);
                                proof {
                                    lemma_push_keeps(wc, j);
                                    assert(refers_to(l@[c as int], j as int));
                                    assert(old(self).payload(i as int) == self.payload(i as int));
                                    assert(refers_to(old(self).payload(i as int)->List_0@[c as int], j as int));
                                    assert(payload_refers_to(old(self).payload(i as int), j as int));
                                    old(self).lemma_child_reachable(roots@, extra, i as int, j as int);
                                    assert forall|w: int| 0 <= w < work@.len() implies old(self).reachable(roots@, extra, #[trigger] work@[w] as int) by {
                                        if w < wc.len() {
                                            assert(work@[w] == wc[w]);
                                        }
                                    }
                                }
                            }
                            c = c + 1;
                        }
                    },
                    _ => {},
                }
                proof {
                    assert forall|y: usize| w1.contains(y) implies #[trigger] work@.contains(y) by {
                        let t = choose|t: int| 0 <= t < w1.len() && w1[t] == y;
                        assert(work@[t] == y);
                    }
                    assert forall|q: int|
                        0 <= q < roots@.len() && (#[trigger] roots@[q]) is Heap implies self.marked(
                            roots@[q]->Heap_0 as int,
                        ) || work@.contains(roots@[q]->Heap_0) by {
                        let j = roots@[q]->Heap_0;
                        if j != i && !before.marked(j as int) {
                            assert(w0.contains(j));
                            assert(w1.contains(j));
                        }
                    }
                    if let Some(e) = extra {
                        if e != i && !before.marked(e as int) {
                            assert(w0.contains(e));
                            assert(w1.contains(e));
                        }
                    }
                    assert forall|x: int, j: int|
                        self.marked(x) && #[trigger] payload_refers_to(self.payload(x), j) implies self.marked(j)
                            || work@.contains(j as usize) by {
                        if x == i {
                            match self.payload(x) {
                                HeapValue::List(l) => {
                                    let q = choose|q: int| 0 <= q < l@.len() && refers_to(#[trigger] l@[q], j);
                                    assert(l@[q] is Heap);
                                },
                                HeapValue::String(_) => {},
                            }
                        } else {
                            assert(before.marked(x));
                            assert(payload_refers_to(before.payload(x), j));
                            assert(self.live(j));
                            if !before.marked(j) && (j as usize) != i {
                                assert(w0.contains(j as usize));
                                assert(w1.contains(j as usize));
                            }
                        }
                    }
                }
            } else {
                proof {
                    assert forall|q: int|
                        0 <= q < roots@.len() && (#[trigger] roots@[q]) is Heap implies self.marked(
                            roots@[q]->Heap_0 as int,
                        ) || work@.contains(roots@[q]->Heap_0) by {
                        assert(old(self).value_ok(roots@[q]));
                    }
                    assert forall|x: int, j: int|
                        self.marked(x) && #[trigger] payload_refers_to(self.payload(x), j) implies self.marked(j)
                            || work@.contains(j as usize) by {
                        assert(self.live(x));
                        assert(self.live(j));
                    }
                }
            }
        }
        proof {
            let m = Set::new(|i: int| self.marked(i));
            assert forall|q: int|
                0 <= q < roots@.len() && (#[trigger] roots@[q]) is Heap implies m.contains(
                    roots@[q]->Heap_0 as int,
                ) by {
                assert(!work@.contains(roots@[q]->Heap_0));
            }
            assert forall|x: int, j: int|
                m.contains(x) && self.live(x) && #[trigger] payload_refers_to(self.payload(x), j) implies m.contains(j) by {
                assert(!work@.contains(j as usize));
            }
        }
    }

    /// Frees the object at slot `i`, and its entry of the string table.
    fn free(&mut self, i: usize)
        requires
            old(self).objects@.len() == old(self).marks@.len(),
            i < old(self).objects@.len(),
            old(self).objects@[i as int] is Some,
            old(self).counted(),
        ensures
            final(self).objects@ == old(self).objects@.update(i as int, None),
            final(self).marks@ == old(self).marks@,
            final(self).total_allocs == old(self).total_allocs,
            final(self).counted(),
    {
        proof {
            lemma_live_in_update(self.objects@, i as int, None);
            lemma_live_in_bound(self.objects@);
        }
        match &self.objects[i] {
            Some(HeapValue::String(text)) => {
                let h = hash_string(text.as_slice(), 0, text.len());
                if index_get(&self.intern_string_map, h) == Some(i) {
                    index_remove(&mut self.intern_string_map, h);
                }
            },
            _ => {},
        }
        self.objects[i] = None;
        if self.total_deallocs < u64::MAX {
            self.total_deallocs = self.total_deallocs + 1;
        }
    }

    /// Frees the unmarked objects and unmarks the others.
    fn sweep(&mut self)
        requires
            old(self).wf(),
            forall|i: int, j: int|
                old(self).marked(i) && #[trigger] payload_refers_to(old(self).payload(i), j)
                    ==> old(self).marked(j),
        ensures
            final(self).wf(),
            final(self).unmarked(),
            final(self).slots() == old(self).slots(),
            forall|i: int| #[trigger] final(self).live(i) <==> old(self).marked(i),
            forall|i: int| #[trigger] final(self).live(i) ==> final(self).payload(i) == old(self).payload(i),
    {
        let n = self.objects.len();
        let mut i: usize = 0;
        while i < n
            invariant
                n == self.objects@.len() == self.marks@.len(),
                n == old(self).objects@.len(),
                old(self).wf(),
                self.counted(),
                i <= n,
                forall|x: int| 0 <= x < i ==> (#[trigger] self.live(x) <==> old(self).marked(x)),
                forall|x: int| 0 <= x < i ==> !#[trigger] self.marks@[x],
                forall|x: int| 0 <= x < i && #[trigger] self.live(x) ==> self.objects@[x] == old(self).objects@[x],
                forall|x: int| i <= x < n ==> #[trigger] self.objects@[x] == old(self).objects@[x],
                forall|x: int| i <= x < n ==> #[trigger] self.marks@[x] == old(self).marks@[x],
            decreases n - i,
        {
            let ghost before = *self;
            assert(self.objects@[i as int] == old(self).objects@[i as int]);
            assert(self.marks@[i as int] == old(self).marks@[i as int]);
            if self.objects[i].is_some() {
                if self.marks[i] {
                    self.marks[i] = false;
                } else {
                    self.free(i);
                }
            } else {
                assert(old(self).marked(i as int) ==> old(self).live(i as int));
            }
            proof {
                assert forall|x: int| 0 <= x < i + 1 implies (#[trigger] self.live(x) <==> old(self).marked(x)) by {
                    if x < i {
                        assert(before.live(x) <==> old(self).marked(x));
                        assert(self.objects@[x] == before.objects@[x]);
                    }
                }
                assert forall|x: int| 0 <= x < i + 1 && #[trigger] self.live(x) implies self.objects@[x] == old(self).objects@[x] by {
                    if x < i {
                        assert(self.objects@[x] == before.objects@[x]);
                        assert(before.live(x));
                    }
                }
            }
            i = i + 1;
        }
        assert forall|x: int, j: int|
            self.live(x) && #[trigger] payload_refers_to(self.payload(x), j) implies self.live(j) by {
            assert(self.payload(x) == old(self).payload(x));
            assert(payload_refers_to(old(self).payload(x), j));
            assert(old(self).marked(j));
        }
        assert forall|x: int| !#[trigger] self.marked(x) by {
            if 0 <= x < n {
                assert(!self.marks@[x]);
            }
        }
    }

    /// Collects: afterwards no object is marked, and every object reachable
    /// from `roots` and `extra` is still live and unchanged.
    pub fn gc(&mut self, roots: &[Value], extra: Option<usize>)
        requires
            old(self).wf(),
            old(self).unmarked(),
            forall|k: int| 0 <= k < roots@.len() ==> old(self).value_ok(#[trigger] roots@[k]),
            extra matches Some(e) ==> old(self).live(e as int),
        ensures
            final(self).wf(),
            final(self).unmarked(),
            final(self).slots() == old(self).slots(),
            forall|i: int|
                #[trigger] old(self).reachable(roots@, extra, i) ==> final(self).live(i) && final(self).payload(i) == old(self).payload(i),
            forall|i: int|
                #[trigger] final(self).live(i) ==> old(self).live(i) && final(self).payload(i) == old(self).payload(i),
            forall|i: int| #[trigger] final(self).live(i) ==> old(self).reachable(roots@, extra, i),
            final(self).counters().0 == old(self).counters().0,
            old(self).counters().1 == saturated(old(self).slots() - old(self).live_count()),
            final(self).counters().1 == saturated(
                (old(self).slots() - old(self).live_count()) + (old(self).live_count() - final(self).live_count()),
            ),
    {
        self.mark(roots, extra);
        let ghost mid = *self;
        proof {
            let m = Set::new(|i: int| mid.marked(i));
            assert forall|i: int, j: int|
                mid.marked(i) && #[trigger] payload_refers_to(mid.payload(i), j) implies mid.marked(j) by {
                assert(m.contains(i));
            }
        }
        self.sweep();
        proof {
            let m = Set::new(|i: int| mid.marked(i));
            assert forall|i: int, j: int|
                m.contains(i) && old(self).live(i) && #[trigger] payload_refers_to(
                    old(self).payload(i),
                    j,
                ) implies m.contains(j) by {
                assert(payload_refers_to(mid.payload(i), j));
            }
            assert(old(self).closed_set(roots@, extra, m));
            assert forall|i: int| #[trigger] old(self).reachable(roots@, extra, i) implies self.live(i)
                && self.payload(i) == old(self).payload(i) by {
                assert(m.contains(i));
            }
        }
    }

    /// The extra root is reachable.
    pub proof fn lemma_extra_reachable(&self, roots: Seq<Value>, e: usize)
        ensures
            self.reachable(roots, Some(e), e as int),
    {
        assert forall|s: Set<int>| #[trigger] self.closed_set(roots, Some(e), s) implies s.contains(e as int) by {
        }
    }

    /// What a reachable live object refers to is reachable.
    pub proof fn lemma_child_reachable(&self, roots: Seq<Value>, extra: Option<usize>, i: int, j: int)
        requires
            self.reachable(roots, extra, i),
            self.live(i),
            payload_refers_to(self.payload(i), j),
        ensures
            self.reachable(roots, extra, j),
    {
        assert forall|s: Set<int>| #[trigger] self.closed_set(roots, extra, s) implies s.contains(j) by {
            assert(s.contains(i));
        }
    }

    /// Objects that the roots refer to are reachable.
    pub proof fn lemma_roots_reachable(&self, roots: Seq<Value>, extra: Option<usize>, k: int)
        requires
            0 <= k < roots.len(),
            roots[k] is Heap,
        ensures
            self.reachable(roots, extra, roots[k]->Heap_0 as int),
    {
        assert forall|s: Set<int>| #[trigger] self.closed_set(roots, extra, s) implies s.contains(
            roots[k]->Heap_0 as int,
        ) by {
        }
    }

    /// Adds an object and collects, keeping it and everything that the
    /// roots reach.
    fn add_object(&mut self, roots: &[Value], payload: HeapValue) -> (r: usize)
        requires
            old(self).wf(),
            old(self).unmarked(),
            forall|k: int| 0 <= k < roots@.len() ==> old(self).value_ok(#[trigger] roots@[k]),
            payload is List ==> payload->List_0@.len() == 0,
        ensures
            final(self).wf(),
            final(self).unmarked(),
            final(self).live(r as int),
            r == old(self).slots(),
            final(self).payload(r as int) == payload,
            forall|k: int| 0 <= k < roots@.len() ==> final(self).value_ok(#[trigger] roots@[k]),
            forall|k: int|
                0 <= k < roots@.len() && (#[trigger] roots@[k]) is Heap ==> final(self).payload(
                    roots@[k]->Heap_0 as int,
                ) == old(self).payload(roots@[k]->Heap_0 as int),
    {
        let idx = self.objects.len();
        let ghost p = payload;
        self.objects.push(Some(payload));
        self.marks.push(false);
        if self.total_allocs < u64::MAX {
            self.total_allocs = self.total_allocs + 1;
        }
        proof {
            assert(self.objects@.drop_last() =~= old(self).objects@);
            lemma_live_in_bound(old(self).objects@);
            assert(self.payload(idx as int) == p);
            assert forall|x: int| #[trigger] self.marked(x) implies self.live(x) by {
                if x < idx {
                    assert(old(self).marked(x));
                }
            }
            assert forall|x: int, j: int|
                self.live(x) && #[trigger] payload_refers_to(self.payload(x), j) implies self.live(j) by {
                if x < idx {
                    assert(self.payload(x) == old(self).payload(x));
                    assert(payload_refers_to(old(self).payload(x), j));
                    assert(old(self).live(j));
                }
            }
            assert forall|x: int| !#[trigger] self.marked(x) by {
                if 0 <= x < idx {
                    assert(!old(self).marked(x));
                }
            }
            assert forall|k: int| 0 <= k < roots@.len() implies self.value_ok(#[trigger] roots@[k]) by {
                assert(old(self).value_ok(roots@[k]));
            }
        }
        let ghost before = *self;
        self.gc(roots, Some(idx));
        proof {
            assert(before.reachable(roots@, Some(idx), idx as int)) by {
                assert forall|s: Set<int>| #[trigger] before.closed_set(roots@, Some(idx), s) implies s.contains(
                    idx as int,
                ) by {
                }
            }
            assert forall|k: int| 0 <= k < roots@.len() && (#[trigger] roots@[k]) is Heap implies self.live(
                roots@[k]->Heap_0 as int,
            ) && self.payload(roots@[k]->Heap_0 as int) == old(self).payload(roots@[k]->Heap_0 as int) by {
                before.lemma_roots_reachable(roots@, Some(idx), k);
                assert(old(self).value_ok(roots@[k]));
            }
        }
        idx
    }

    /// A heap string with the text: an existing one found through the string
    /// table, or a new one. A new one is followed by a collection, which
    /// keeps it and whatever the roots reach.
    pub fn alloc_string(&mut self, roots: &[Value], text: Vec<char>) -> (r: Value)
        requires
            old(self).wf(),
            old(self).unmarked(),
            forall|k: int| 0 <= k < roots@.len() ==> old(self).value_ok(#[trigger] roots@[k]),
        ensures
            final(self).wf(),
            final(self).unmarked(),
            r is Heap,
            final(self).live(r->Heap_0 as int),
            final(self).payload(r->Heap_0 as int) matches HeapValue::String(t) && t@ == text@,
            (r->Heap_0 as int) < old(self).slots() ==> final(self).slots() == old(self).slots()
                && old(self).live(r->Heap_0 as int) && final(self).payload(r->Heap_0 as int) == old(self).payload(r->Heap_0 as int)
                && forall|x: int| #[trigger] final(self).live(x) == old(self).live(x),
            (r->Heap_0 as int) >= old(self).slots() ==> r->Heap_0 == old(self).slots(),
            forall|k: int| 0 <= k < roots@.len() ==> final(self).value_ok(#[trigger] roots@[k]),
            forall|k: int|
                0 <= k < roots@.len() && (#[trigger] roots@[k]) is Heap ==> final(self).payload(
                    roots@[k]->Heap_0 as int,
                ) == old(self).payload(roots@[k]->Heap_0 as int),
    {
        let h = hash_string(text.as_slice(), 0, text.len());
        if let Some(j) = index_get(&self.intern_string_map, h) {
            if j < self.objects.len() {
                match &self.objects[j] {
                    Some(HeapValue::String(t)) => {
                        if chars_equal(t, &text) {
                            proof {
                                assert forall|k: int| 0 <= k < roots@.len() implies self.value_ok(#[trigger] roots@[k]) by {
                                    assert(old(self).value_ok(roots@[k]));
                                }
                            }
                            return Value::Heap(j);
                        }
                    },
                    _ => {},
                }
            }
        }
        let idx = self.add_object(roots, HeapValue::String(text));
        let ghost before = *self;
        index_insert(&mut self.intern_string_map, h, idx);
        proof {
            Self::lemma_same_heap(&before, &*self);
        }
        Value::Heap(idx)
    }

    /// A new, empty heap list.
    pub fn alloc_list(&mut self, roots: &[Value], capacity: usize) -> (r: Value)
        requires
            old(self).wf(),
            old(self).unmarked(),
            forall|k: int| 0 <= k < roots@.len() ==> old(self).value_ok(#[trigger] roots@[k]),
        ensures
            final(self).wf(),
            final(self).unmarked(),
            r is Heap,
            final(self).live(r->Heap_0 as int),
            final(self).payload(r->Heap_0 as int) matches HeapValue::List(l) && l@.len() == 0,
            forall|k: int| 0 <= k < roots@.len() ==> final(self).value_ok(#[trigger] roots@[k]),
            forall|k: int|
                0 <= k < roots@.len() && (#[trigger] roots@[k]) is Heap ==> final(self).payload(
                    roots@[k]->Heap_0 as int,
                ) == old(self).payload(roots@[k]->Heap_0 as int),
    {
        let l: Vec<Value> = Vec::with_capacity(capacity);
        let idx = self.add_object(roots, HeapValue::List(l));
        Value::Heap(idx)
    }

    /// Frees every object.
    pub fn dealloc_all(&mut self)
        requires
            old(self).wf(),
        ensures
            final(self).live_count() == 0,
            final(self).counters().1 == saturated(final(self).slots() as int),
            forall|i: int| !#[trigger] final(self).live(i),
            final(self).slots() == old(self).slots(),
    {
        let n = self.objects.len();
        let mut i: usize = 0;
        while i < n
            invariant
                n == self.objects@.len() == self.marks@.len(),
                n == old(self).objects@.len(),
                self.counted(),
                i <= n,
                forall|x: int| 0 <= x < i ==> !#[trigger] self.live(x),
            decreases n - i,
        {
            let ghost before = *self;
            if self.objects[i].is_some() {
                self.free(i);
            }
            assert forall|x: int| 0 <= x < i + 1 implies !#[trigger] self.live(x) by {
                if x < i {
                    assert(!before.live(x));
                    assert(self.objects@[x] == before.objects@[x]);
                }
            }
            i = i + 1;
        }
        proof {
            assert forall|x: int| 0 <= x < self.objects@.len() implies self.objects@[x] is None by {
                assert(!self.live(x));
            }
            lemma_live_in_none(self.objects@);
        }
    }

    proof fn lemma_same_heap(a: &Self, b: &Self)
        requires
            a.objects@ == b.objects@,
            a.marks@ == b.marks@,
            a.total_allocs == b.total_allocs,
            a.total_deallocs == b.total_deallocs,
            a.wf(),
            a.unmarked(),
        ensures
            b.wf(),
            b.unmarked(),
            forall|i: int| #[trigger] b.live(i) == a.live(i),
            forall|i: int| #[trigger] b.payload(i) == a.payload(i),
    {
        assert forall|i: int| #[trigger] b.marked(i) implies b.live(i) by {
            assert(a.marked(i) == b.marked(i));
        }
        assert forall|i: int, j: int| b.live(i) && #[trigger] payload_refers_to(b.payload(i), j) implies b.live(j) by {
            assert(payload_refers_to(a.payload(i), j));
            assert(a.live(i));
        }
        assert forall|i: int| !#[trigger] b.marked(i) by {
            assert(!a.marked(i));
        }
    }

    /// The length of the list at slot `i`, if that is a live list.
    pub fn list_len(&self, i: usize) -> (r: Option<usize>)
        ensures
            r matches Some(n) ==> self.live(i as int) && self.payload(i as int) is List
                && self.payload(i as int)->List_0@.len() == n,
            r is None ==> !(self.live(i as int) && self.payload(i as int) is List),
    {
        if i < self.objects.len() {
            match &self.objects[i] {
                Some(HeapValue::List(l)) => Some(l.len()),
                _ => None,
            }
        } else {
            None
        }
    }

    /// Element `k` of the list at slot `i`.
    pub fn list_get(&self, i: usize, k: usize) -> (r: Option<Value>)
        requires
            self.wf(),
        ensures
            r matches Some(v) ==> self.live(i as int) && self.payload(i as int) is List && k
                < self.payload(i as int)->List_0@.len() && v == self.payload(i as int)->List_0@[k as int]
                && self.value_ok(v),
            r is None ==> !(self.live(i as int) && self.payload(i as int) is List && k < self.payload(
                i as int,
            )->List_0@.len()),
    {
        if i < self.objects.len() {
            match &self.objects[i] {
                Some(HeapValue::List(l)) => {
                    if k < l.len() {
                        let v = l[k];
                        proof {
                            if v is Heap {
                                assert(refers_to(l@[k as int], v->Heap_0 as int));
                                assert(payload_refers_to(self.payload(i as int), v->Heap_0 as int));
                            }
                        }
                        Some(v)
                    } else {
                        None
                    }
                },
                _ => None,
            }
        } else {
            None
        }
    }

    /// Appends `v` to the list at slot `i`; false where that is no live list.
    pub fn list_push(&mut self, i: usize, v: Value) -> (r: bool)
        requires
            old(self).wf(),
            old(self).unmarked(),
            old(self).value_ok(v),
        ensures
            final(self).wf(),
            final(self).unmarked(),
            final(self).slots() == old(self).slots(),
            r == (old(self).live(i as int) && old(self).payload(i as int) is List),
            forall|x: int| #[trigger] final(self).live(x) == old(self).live(x),
            forall|x: int|
                x != i && #[trigger] final(self).live(x) ==> final(self).payload(x) == old(self).payload(x),
            r ==> final(self).payload(i as int) is List && final(self).payload(i as int)->List_0@ == old(self).payload(i as int)->List_0@.push(v),
    {
        let ghost before = *self;
        if i >= self.objects.len() {
            proof {
                Self::lemma_same_heap(&before, &*self);
            }
            return false;
        }
        let mut slot: Option<HeapValue> = None;
        std::mem::swap(&mut slot, &mut self.objects[i]);
        match slot {
            Some(HeapValue::List(mut l)) => {
                let ghost l0 = l@;
                l.push(v);
                self.objects[i] = Some(HeapValue::List(l));
                proof {
                    lemma_live_in_update(before.objects@, i as int, self.objects@[i as int]);
                    assert(self.objects@ =~= before.objects@.update(i as int, self.objects@[i as int]));
                    assert(before.payload(i as int)->List_0@ == l0);
                    assert forall|x: int| #[trigger] self.live(x) == before.live(x) by {
                        if x != i && 0 <= x < self.objects@.len() {
                            assert(self.objects@[x] == before.objects@[x]);
                        }
                    }
                    assert forall|x: int| !#[trigger] self.marked(x) by {
                        assert(!before.marked(x));
                    }
                    assert forall|x: int, j: int|
                        self.live(x) && #[trigger] payload_refers_to(self.payload(x), j) implies self.live(j) by {
                        if x == i as int {
                            let q = choose|q: int|
                                0 <= q < self.payload(x)->List_0@.len() && refers_to(
                                    #[trigger] self.payload(x)->List_0@[q],
                                    j,
                                );
                            if q < l0.len() {
                                assert(self.payload(x)->List_0@[q] == l0[q]);
                                assert(refers_to(before.payload(x)->List_0@[q], j));
                                assert(payload_refers_to(before.payload(x), j));
                            }
                        } else {
                            assert(self.objects@[x] == before.objects@[x]);
                            assert(payload_refers_to(before.payload(x), j));
                        }
                    }
                    assert forall|x: int|
                        x != i && #[trigger] self.live(x) implies self.payload(x) == before.payload(x) by {
                        assert(self.objects@[x] == before.objects@[x]);
                    }
                }
                true
            },
            other => {
                self.objects[i] = other;
                proof {
                    assert(self.objects@ =~= before.objects@);
                    Self::lemma_same_heap(&before, &*self);
                }
                false
            },
        }
    }
}

} // verus!
