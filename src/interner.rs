//! Deduplicated storage of source text: each distinct content is stored once
//! and referred to by an `Atom`, a range of the interner's arena.
use vstd::prelude::*;

verus! {

#[verifier::external_type_specification]
#[verifier::external_body]
#[verifier::reject_recursive_types(K)]
#[verifier::reject_recursive_types(V)]
pub struct ExIntMap<K, V>(intmap::IntMap<K, V>);

/// What an index from hashes to entry numbers holds.
pub uninterp spec fn index_contents(m: intmap::IntMap<u64, usize>) -> Map<u64, usize>;

/// Relies on intmap::IntMap::new: a new map holds nothing.
#[verifier::external_body]
pub(crate) fn index_new() -> (r: intmap::IntMap<u64, usize>)
    ensures
        index_contents(r).dom() == Set::<u64>::empty(),
{
    intmap::IntMap::new()
}

/// Relies on intmap::IntMap::get: the value stored under the key, if any.
#[verifier::external_body]
pub(crate) fn index_get(m: &intmap::IntMap<u64, usize>, k: u64) -> (r: Option<usize>)
    ensures
        r == (if index_contents(*m).contains_key(k) {
            Some(index_contents(*m)[k])
        } else {
            None::<usize>
        }),
{
    m.get(k).copied()
}

/// Relies on intmap::IntMap::insert: the key maps to the value afterwards and
/// every other key keeps its entry.
#[verifier::external_body]
pub(crate) fn index_insert(m: &mut intmap::IntMap<u64, usize>, k: u64, v: usize)
    ensures
        index_contents(*final(m)) == index_contents(*old(m)).insert(k, v),
{
    m.insert(k, v);
}

/// Relies on intmap::IntMap::remove: the key has no entry afterwards and
/// every other key keeps its entry.
#[verifier::external_body]
pub(crate) fn index_remove(m: &mut intmap::IntMap<u64, usize>, k: u64)
    ensures
        index_contents(*final(m)) == index_contents(*old(m)).remove(k),
{
    m.remove(k);
}

/// Relies on ahash::AHasher with its default keys over the UTF-8 encoding of
/// `s[from..to]`. Those keys are drawn once per process, so nothing is stated
/// of the value.
#[verifier::external_body]
pub fn hash_string(s: &[char], from: usize, to: usize) -> (r: u64)
    requires
        from <= to <= s@.len(),
{
    let text: String = s[from..to].iter().collect();
    let mut hasher = ahash::AHasher::default();
    std::hash::Hasher::write(&mut hasher, text.as_bytes());
    std::hash::Hasher::finish(&hasher)
}

/// Relies on ahash::RandomState::new, which seeds each new state from a
/// process-wide counter and the random source, hashed with
/// std::hash::BuildHasher::hash_one: a value drawn afresh for each interner,
/// so that the handles of two interners differ. Nothing is stated of it.
#[verifier::external_body]
fn fresh_identity() -> (r: u64) {
    std::hash::BuildHasher::hash_one(&ahash::RandomState::new(), 0u8)
}

/// A handle to interned text: the range `start..end` of the arena of the
/// interner whose identity it carries.
#[derive(Debug, Clone, Copy, PartialEq, Eq, Structural, Hash)]
pub struct Atom {
    pub start: usize,
    pub end: usize,
    pub interner: u64,
}

/// Stores each distinct content once. `intern` of equal content gives equal
/// atoms, and text is never moved, so atoms stay valid.
pub struct StringInterner {
    identity: u64,
    arena: Vec<char>,
    entries: Vec<Atom>,
    index: intmap::IntMap<u64, usize>,
}

pub open spec fn chars_of(text: Seq<char>, a: Atom) -> Seq<char> {
    text.subrange(a.start as int, a.end as int)
}

impl StringInterner {
    /// All text interned so far, in the order it was added.
    pub closed spec fn text(&self) -> Seq<char> {
        self.arena@
    }

    /// The atoms handed out so far, one for each distinct content.
    pub closed spec fn handles(&self) -> Seq<Atom> {
        self.entries@
    }

    pub open spec fn is_handle(&self, a: Atom) -> bool {
        self.handles().contains(a)
    }

    /// The text that an atom of this interner stands for.
    pub open spec fn content(&self, a: Atom) -> Seq<char> {
        chars_of(self.text(), a)
    }

    /// What every handle of this interner carries, so that handles of two
    /// interners never compare equal by their range alone.
    pub closed spec fn identity(&self) -> u64 {
        self.identity
    }

    pub closed spec fn wf(&self) -> bool {
        &&& forall|i: int| 0 <= i < self.entries@.len() ==> #[trigger] self.entries@[i].interner == self.identity
        &&& forall|i: int|
            0 <= i < self.entries@.len() ==> #[trigger] self.entries@[i].start
                <= self.entries@[i].end <= self.arena@.len()
        &&& forall|i: int, j: int|
            0 <= i < j < self.entries@.len() ==> chars_of(self.arena@, #[trigger] self.entries@[i])
                != chars_of(self.arena@, #[trigger] self.entries@[j])
        &&& forall|k: u64|
            #[trigger] index_contents(self.index).contains_key(k) ==> index_contents(
                self.index,
            )[k] < self.entries@.len()
    }

    /// What holds of every later state: text and handles only grow.
    pub open spec fn extends(&self, earlier: &Self) -> bool {
        &&& earlier.text().is_prefix_of(self.text())
        &&& earlier.handles().is_prefix_of(self.handles())
    }

    pub proof fn lemma_handle_bounds(&self, a: Atom)
        requires
            self.wf(),
            self.is_handle(a),
        ensures
            a.start <= a.end <= self.text().len(),
            a.interner == self.identity(),
    {
        let i = choose|i: int| 0 <= i < self.entries@.len() && self.entries@[i] == a;
        assert(self.entries@[i].start <= self.entries@[i].end);
    }

    /// Two handles with equal content are the same handle.
    pub proof fn lemma_handles_unique(&self, a: Atom, b: Atom)
        requires
            self.wf(),
            self.is_handle(a),
            self.is_handle(b),
            self.content(a) == self.content(b),
        ensures
            a == b,
    {
        let i = choose|i: int| 0 <= i < self.entries@.len() && self.entries@[i] == a;
        let j = choose|j: int| 0 <= j < self.entries@.len() && self.entries@[j] == b;
        if i < j {
            assert(chars_of(self.arena@, self.entries@[i]) != chars_of(self.arena@, self.entries@[j]));
        } else if j < i {
            assert(chars_of(self.arena@, self.entries@[j]) != chars_of(self.arena@, self.entries@[i]));
        }
    }

    /// Handles keep their content in every later state.
    pub proof fn lemma_extends_keeps(&self, earlier: &Self, a: Atom)
        requires
            earlier.wf(),
            earlier.is_handle(a),
            self.extends(earlier),
        ensures
            self.is_handle(a),
            self.content(a) == earlier.content(a),
    {
        earlier.lemma_handle_bounds(a);
        let i = choose|i: int| 0 <= i < earlier.entries@.len() && earlier.entries@[i] == a;
        assert(self.entries@[i] == a);
        assert(self.content(a) =~= earlier.content(a));
    }

    pub fn new() -> (r: Self)
        ensures
            r.wf(),
            r.text().len() == 0,
            r.handles().len() == 0,
    {
        StringInterner {
            identity: fresh_identity(),
            arena: Vec::new(),
            entries: Vec::new(),
            index: index_new(),
        }
    }

    /// Whether `src[from..to]` equals the content of entry `i`.
    fn entry_matches(&self, i: usize, src: &[char], from: usize, to: usize) -> (r: bool)
        requires
            self.wf(),
            i < self.entries@.len(),
            from <= to <= src@.len(),
        ensures
            r == (chars_of(self.arena@, self.entries@[i as int]) == src@.subrange(
                from as int,
                to as int,
            )),
    {
        let e = self.entries[i];
        if e.end - e.start != to - from {
            proof {
                if chars_of(self.arena@, e) == src@.subrange(from as int, to as int) {
                    assert(chars_of(self.arena@, e).len() == src@.subrange(from as int, to as int).len());
                }
            }
            return false;
        }
        let n = to - from;
        let mut k: usize = 0;
        while k < n
            invariant
                self.wf(),
                i < self.entries@.len(),
                e == self.entries@[i as int],
                from <= to <= src@.len(),
                n == to - from,
                e.end - e.start == n,
                e.start <= e.end <= self.arena@.len(),
                k <= n,
                forall|m: int| 0 <= m < k ==> #[trigger] self.arena@[e.start + m] == src@[from + m],
            decreases n - k,
        {
            if self.arena[e.start + k] != src[from + k] {
                proof {
                    let a = chars_of(self.arena@, e);
                    let b = src@.subrange(from as int, to as int);
                    assert(a[k as int] != b[k as int]);
                }
                return false;
            }
            k = k + 1;
        }
        assert forall|m: int| 0 <= m < n implies chars_of(self.arena@, e)[m] == src@.subrange(
            from as int,
            to as int,
        )[m] by {
            assert(self.arena@[e.start + m] == src@[from + m]);
        }
        assert(chars_of(self.arena@, e) =~= src@.subrange(from as int, to as int));
        true
    }

    /// The entry whose content is `src[from..to]`, if there is one. The hash
    /// index is tried first; a hit counts only once the contents compare equal.
    fn find(&self, src: &[char], from: usize, to: usize) -> (r: Option<usize>)
        requires
            self.wf(),
            from <= to <= src@.len(),
        ensures
            r matches Some(i) ==> i < self.entries@.len() && chars_of(
                self.arena@,
                self.entries@[i as int],
            ) == src@.subrange(from as int, to as int),
            r is None ==> forall|i: int|
                0 <= i < self.entries@.len() ==> chars_of(self.arena@, #[trigger] self.entries@[i])
                    != src@.subrange(from as int, to as int),
    {
        let h = hash_string(src, from, to);
        if let Some(i) = index_get(&self.index, h) {
            if self.entry_matches(i, src, from, to) {
                return Some(i);
            }
        }
        let mut i: usize = 0;
        while i < self.entries.len()
            invariant
                self.wf(),
                from <= to <= src@.len(),
                i <= self.entries@.len(),
                forall|j: int|
                    0 <= j < i ==> chars_of(self.arena@, #[trigger] self.entries@[j])
                        != src@.subrange(from as int, to as int),
            decreases self.entries@.len() - i,
        {
            if self.entry_matches(i, src, from, to) {
                return Some(i);
            }
            i = i + 1;
        }
        None
    }

    /// Records `a` as the handle for its content, which no handle has yet.
    fn register(&mut self, a: Atom, h: u64)
        requires
            old(self).wf(),
            a.start <= a.end <= old(self).arena@.len(),
            forall|i: int|
                0 <= i < old(self).entries@.len() ==> chars_of(
                    old(self).arena@,
                    #[trigger] old(self).entries@[i],
                ) != chars_of(old(self).arena@, a),
            old(self).entries@.len() < usize::MAX,
            a.interner == old(self).identity,
        ensures
            final(self).wf(),
            final(self).identity == old(self).identity,
            final(self).arena@ == old(self).arena@,
            final(self).entries@ == old(self).entries@.push(a),
    {
        let n = self.entries.len();
        self.entries.push(a);
        index_insert(&mut self.index, h, n);
        assert forall|i: int| 0 <= i < self.entries@.len() implies #[trigger] self.entries@[i].interner
            == self.identity by {
            if i < n {
                assert(self.entries@[i] == old(self).entries@[i]);
            }
        }
        assert forall|i: int, j: int|
            0 <= i < j < self.entries@.len() implies chars_of(self.arena@, #[trigger] self.entries@[i])
            != chars_of(self.arena@, #[trigger] self.entries@[j]) by {
            if j == n {
                assert(self.entries@[j] == a);
                assert(self.entries@[i] == old(self).entries@[i]);
            } else {
                assert(self.entries@[i] == old(self).entries@[i]);
                assert(self.entries@[j] == old(self).entries@[j]);
            }
        }
    }

    /// The handle for `s`: the existing one where `s` was interned before,
    /// else a new one whose range holds a fresh copy of `s`.
    pub fn intern(&mut self, s: &[char]) -> (r: Atom)
        requires
            old(self).wf(),
            old(self).text().len() + s@.len() < usize::MAX,
            old(self).handles().len() + 1 < usize::MAX,
        ensures
            final(self).wf(),
            final(self).extends(&*old(self)),
            final(self).is_handle(r),
            final(self).content(r) == s@,
            old(self).handles().contains(r) ==> *final(self) == *old(self),
            !old(self).handles().contains(r) ==> final(self).handles() == old(self).handles().push(r)
                && final(self).text() == old(self).text() + s@,
            forall|a: Atom| #[trigger]
                final(self).is_handle(a) && final(self).content(a) == s@ ==> a == r,
    {
        match self.find(s, 0, s.len()) {
            Some(i) => {
                let r = self.entries[i];
                proof {
                    assert(s@.subrange(0, s@.len() as int) =~= s@);
                    assert(self.entries@[i as int] == r);
                    assert(self.handles().contains(r));
                    assert forall|a: Atom| #[trigger]
                        self.is_handle(a) && self.content(a) == s@ implies a == r by {
                        self.lemma_handles_unique(a, r);
                    }
                }
                r
            },
            None => {
                let ghost before = *self;
                let start = self.arena.len();
                let mut k: usize = 0;
                while k < s.len()
                    invariant
                        before.wf(),
                        self.entries@ == before.entries@,
                        self.identity == before.identity,
                        self.index == before.index,
                        start == before.arena@.len(),
                        self.arena@ == before.arena@ + s@.subrange(0, k as int),
                        k <= s@.len(),
                        start + s@.len() < usize::MAX,
                    decreases s@.len() - k,
                {
                    self.arena.push(s[k]);
                    k = k + 1;
                    assert(self.arena@ =~= before.arena@ + s@.subrange(0, k as int));
                }
                assert(s@.subrange(0, s@.len() as int) =~= s@);
                let end = self.arena.len();
                let a = Atom { start, end, interner: self.identity };
                assert(chars_of(self.arena@, a) =~= s@);
                assert forall|i: int| 0 <= i < self.entries@.len() implies #[trigger] self.entries@[i].interner
                    == self.identity by {
                    assert(before.entries@[i].interner == before.identity);
                }
                assert forall|i: int| 0 <= i < self.entries@.len() implies
                    #[trigger] self.entries@[i].start <= self.entries@[i].end <= self.arena@.len() by {
                    assert(before.entries@[i].start <= before.entries@[i].end);
                }
                assert forall|i: int, j: int|
                    0 <= i < j < self.entries@.len() implies chars_of(self.arena@, #[trigger] self.entries@[i])
                    != chars_of(self.arena@, #[trigger] self.entries@[j]) by {
                    assert(chars_of(self.arena@, self.entries@[i]) =~= chars_of(before.arena@, self.entries@[i]));
                    assert(chars_of(self.arena@, self.entries@[j]) =~= chars_of(before.arena@, self.entries@[j]));
                }
                assert forall|i: int| 0 <= i < self.entries@.len() implies
                    chars_of(self.arena@, #[trigger] self.entries@[i]) != chars_of(self.arena@, a) by {
                    assert(chars_of(self.arena@, self.entries@[i]) =~= chars_of(before.arena@, self.entries@[i]));
                    assert(s@.subrange(0, s@.len() as int) =~= s@);
                }
                let h = hash_string(s, 0, s.len());
                self.register(a, h);
                proof {
                    assert(self.entries@[self.entries@.len() - 1] == a);
                    assert(self.arena@ =~= before.arena@ + s@);
                    if before.handles().contains(a) {
                        let i = choose|i: int| 0 <= i < before.entries@.len() && before.entries@[i] == a;
                        assert(chars_of(before.arena@, before.entries@[i]) != chars_of(self.arena@, a));
                        assert(a.start <= a.end <= before.arena@.len());
                    }
                    assert(before.arena@.is_prefix_of(self.arena@));
                    assert(before.entries@.is_prefix_of(self.entries@));
                    assert forall|b: Atom| #[trigger]
                        self.is_handle(b) && self.content(b) == s@ implies b == a by {
                        self.lemma_handles_unique(a, b);
                    }
                }
                a
            },
        }
    }

    /// The text of a handle.
    pub fn slice(&self, a: Atom) -> (r: Vec<char>)
        requires
            self.wf(),
            self.is_handle(a),
        ensures
            r@ == self.content(a),
    {
        proof { self.lemma_handle_bounds(a); }
        let mut r: Vec<char> = Vec::new();
        let mut k: usize = a.start;
        while k < a.end
            invariant
                a.start <= k <= a.end <= self.arena@.len(),
                r@ == self.arena@.subrange(a.start as int, k as int),
            decreases a.end - k,
        {
            r.push(self.arena[k]);
            k = k + 1;
            assert(r@ =~= self.arena@.subrange(a.start as int, k as int));
        }
        r
    }

    /// All text interned so far.
    pub fn all_text(&self) -> (r: Vec<char>)
        ensures
            r@ == self.text(),
    {
        let mut r: Vec<char> = Vec::new();
        let mut k: usize = 0;
        while k < self.arena.len()
            invariant
                k <= self.arena@.len(),
                r@ == self.arena@.subrange(0, k as int),
            decreases self.arena@.len() - k,
        {
            r.push(self.arena[k]);
            k = k + 1;
            assert(r@ =~= self.arena@.subrange(0, k as int));
        }
        assert(self.arena@.subrange(0, self.arena@.len() as int) =~= self.arena@);
        r
    }

    /// The text of `a` where its range lies in the arena, else nothing.
    pub fn text_of(&self, a: Atom) -> (r: Vec<char>)
        ensures
            a.start <= a.end <= self.text().len() ==> r@ == chars_of(self.text(), a),
            !(a.start <= a.end <= self.text().len()) ==> r@.len() == 0,
    {
        let mut r: Vec<char> = Vec::new();
        if a.start <= a.end && a.end <= self.arena.len() {
            let mut k: usize = a.start;
            while k < a.end
                invariant
                    a.start <= k <= a.end <= self.arena@.len(),
                    r@ == self.arena@.subrange(a.start as int, k as int),
                decreases a.end - k,
            {
                r.push(self.arena[k]);
                k = k + 1;
                assert(r@ =~= self.arena@.subrange(a.start as int, k as int));
            }
        }
        r
    }

    /// The handle for the content of `a` without its first `drop_prefix` and
    /// last `drop_suffix` characters. No text is added: a new handle, where
    /// one is needed, is a sub-range of `a`.
    pub fn cut(&mut self, a: Atom, drop_prefix: usize, drop_suffix: usize) -> (r: Atom)
        requires
            old(self).wf(),
            old(self).is_handle(a),
            drop_prefix + drop_suffix <= a.end - a.start,
            old(self).handles().len() + 1 < usize::MAX,
        ensures
            final(self).wf(),
            final(self).text() == old(self).text(),
            final(self).extends(&*old(self)),
            final(self).handles().len() <= old(self).handles().len() + 1,
            final(self).is_handle(r),
            final(self).content(r) == old(self).content(a).subrange(
                drop_prefix as int,
                a.end - a.start - drop_suffix,
            ),
            forall|b: Atom| #[trigger]
                final(self).is_handle(b) && final(self).content(b) == final(self).content(r) ==> b == r,
    {
        proof { self.lemma_handle_bounds(a); }
        let from = a.start + drop_prefix;
        let to = a.end - drop_suffix;
        let ghost want = self.content(a).subrange(drop_prefix as int, a.end - a.start - drop_suffix);
        assert(self.arena@.subrange(from as int, to as int) =~= want);
        let found = self.find(self.arena.as_slice(), from, to);
        match found {
            Some(i) => {
                let r = self.entries[i];
                proof {
                    assert(self.entries@[i as int] == r);
                    assert forall|b: Atom| #[trigger]
                        self.is_handle(b) && self.content(b) == self.content(r) implies b == r by {
                        self.lemma_handles_unique(b, r);
                    }
                }
                r
            },
            None => {
                let ghost before = *self;
                let r = Atom { start: from, end: to, interner: self.identity };
                let h = hash_string(self.arena.as_slice(), from, to);
                self.register(r, h);
                proof {
                    assert(self.entries@[self.entries@.len() - 1] == r);
                    assert(before.entries@.is_prefix_of(self.entries@));
                    assert forall|b: Atom| #[trigger]
                        self.is_handle(b) && self.content(b) == self.content(r) implies b == r by {
                        self.lemma_handles_unique(b, r);
                    }
                }
                r
            },
        }
    }
}

/// Interning text that a handle already stands for gives that handle: so
/// interning the same content twice gives equal handles, and interning the
/// slice of a handle gives the handle back.
pub proof fn law_intern_idempotent(
    earlier: StringInterner,
    later: StringInterner,
    h: Atom,
    r: Atom,
)
    requires
        earlier.wf(),
        later.wf(),
        later.extends(&earlier),
        earlier.is_handle(h),
        later.is_handle(r),
        later.content(r) == earlier.content(h),
        forall|a: Atom| #[trigger]
            later.is_handle(a) && later.content(a) == later.content(r) ==> a == r,
    ensures
        r == h,
{
    later.lemma_extends_keeps(&earlier, h);
}

} // verus!
