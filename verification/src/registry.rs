//! The chain registry: every snake's ordered mapping from segment index to
//! segment identity.
//!
//! A chain is a non-empty sequence of segment identities; the entry at
//! index 0 is the chain's head and later indices are trailing segments in
//! growth order. Identities are plain arena indices. The registry keeps the
//! chains well-formed: every registered identity stands in exactly one
//! chain, at exactly one index, for its lifetime.

use vstd::prelude::*;

verus! {

/// Why a registration was refused.
#[derive(Clone, Copy, PartialEq, Eq, Structural, Debug)]
pub enum RegistryError {
    /// The identity is already registered somewhere in the registry.
    DuplicateSegment,
    /// No chain carries the given chain id.
    NoSuchChain,
}

/// The mathematical model of a registry: one sequence of segment identities
/// per chain, ordered by chain id.
pub type RegistryModel = Seq<Seq<usize>>;

/// The identity standing at chain `c`, index `i`.
pub open spec fn entry(m: RegistryModel, c: int, i: int) -> usize {
    m[c][i]
}

/// Chain `c` has an entry at index `i`.
pub open spec fn has_index(m: RegistryModel, c: int, i: int) -> bool {
    0 <= c < m.len() && 0 <= i < m[c].len()
}

/// The identity `s` stands somewhere in the registry.
pub open spec fn seg_registered(m: RegistryModel, s: usize) -> bool {
    exists|c: int, i: int| has_index(m, c, i) && #[trigger] entry(m, c, i) == s
}

/// The identity `s` is the head (index 0) of some chain.
pub open spec fn head_registered(m: RegistryModel, s: usize) -> bool {
    exists|c: int| 0 <= c < m.len() && #[trigger] entry(m, c, 0) == s
}

/// Well-formedness: every chain has a head, and no identity stands in two
/// places.
pub open spec fn wf(m: RegistryModel) -> bool {
    &&& forall|c: int| 0 <= c < m.len() ==> #[trigger] m[c].len() >= 1
    &&& forall|c1: int, i1: int, c2: int, i2: int|
        has_index(m, c1, i1) && has_index(m, c2, i2)
            && #[trigger] entry(m, c1, i1) == #[trigger] entry(m, c2, i2)
            ==> c1 == c2 && i1 == i2
}

/// The model after appending identity `s` to chain `c`.
pub open spec fn append_model(m: RegistryModel, c: int, s: usize) -> RegistryModel {
    m.update(c, m[c].push(s))
}

/// The model after creating a fresh chain headed by `s`.
pub open spec fn create_model(m: RegistryModel, s: usize) -> RegistryModel {
    m.push(seq![s])
}

/// The set of all chains, keyed by small integer chain ids in creation
/// order; a chain id is an index into the model.
pub struct Registry {
    chains: Vec<Vec<usize>>,
}

impl View for Registry {
    type V = RegistryModel;

    closed spec fn view(&self) -> RegistryModel {
        self.chains@.map_values(|ch: Vec<usize>| ch@)
    }
}

impl Registry {
    /// A registry with no chains.
    pub fn new() -> (r: Registry)
        ensures
            r@ == Seq::<Seq<usize>>::empty(),
            wf(r@),
    {
        let r = Registry { chains: Vec::new() };
        proof {
            assert(r@ =~= Seq::<Seq<usize>>::empty());
        }
        r
    }

    /// Whether `s` already stands in some chain.
    pub fn is_registered(&self, s: usize) -> (r: bool)
        ensures
            r == seg_registered(self@, s),
    {
        let n = self.chains.len();
        let mut c: usize = 0;
        while c < n
            invariant
                c <= n,
                n == self@.len(),
                self@.len() == self.chains@.len(),
                forall|cc: int, i: int| 0 <= cc < c && 0 <= i < self@[cc].len()
                    ==> #[trigger] entry(self@, cc, i) != s,
            decreases n - c,
        {
            let chain = &self.chains[c];
            let len = chain.len();
            let mut i: usize = 0;
            while i < len
                invariant
                    i <= len,
                    c < n,
                    n == self@.len(),
                    len == self@[c as int].len(),
                    chain@ == self@[c as int],
                    forall|j: int| 0 <= j < i ==> #[trigger] entry(self@, c as int, j) != s,
                decreases len - i,
            {
                if chain[i] == s {
                    proof {
                        assert(entry(self@, c as int, i as int) == s);
                    }
                    return true;
                }
                i += 1;
            }
            c += 1;
        }
        false
    }

    /// Whether `s` is the head of some chain. The registry must be
    /// well-formed so that every chain indeed carries a head entry.
    pub fn is_head(&self, s: usize) -> (r: bool)
        requires
            wf(self@),
        ensures
            r == head_registered(self@, s),
    {
        let n = self.chains.len();
        let mut c: usize = 0;
        while c < n
            invariant
                c <= n,
                n == self@.len(),
                wf(self@),
                forall|cc: int| 0 <= cc < c ==> #[trigger] entry(self@, cc, 0) != s,
            decreases n - c,
        {
            proof {
                assert(self.chains@[c as int]@ == self@[c as int]);
                assert(self@[c as int].len() >= 1);
            }
            if self.chains[c][0] == s {
                proof {
                    assert(entry(self@, c as int, 0) == s);
                }
                return true;
            }
            c += 1;
        }
        false
    }

    /// Register a brand-new chain whose index-0 entry is `head`; the
    /// returned chain id is the number of chains that came before it.
    /// Refused when `head` already stands anywhere in the registry.
    pub fn create_chain(&mut self, head: usize) -> (r: Result<usize, RegistryError>)
        requires
            wf(old(self)@),
        ensures
            wf(final(self)@),
            match r {
                Ok(c) => !seg_registered(old(self)@, head)
                    && c == old(self)@.len()
                    && final(self)@ == create_model(old(self)@, head),
                Err(e) => e == RegistryError::DuplicateSegment
                    && seg_registered(old(self)@, head)
                    && final(self)@ == old(self)@,
            },
    {
        if self.is_registered(head) {
            return Err(RegistryError::DuplicateSegment);
        }
        let ghost m = self@;
        let c = self.chains.len();
        let mut fresh: Vec<usize> = Vec::new();
        fresh.push(head);
        self.chains.push(fresh);
        proof {
            let m2 = self@;
            assert(m2 =~= create_model(m, head));
            lemma_create_preserves_wf(m, head);
        }
        Ok(c)
    }

    /// Append identity `seg` at the next index of chain `chain`: the index
    /// assigned is exactly the chain's segment count before the call.
    /// Refused when the chain id is unknown or `seg` already stands
    /// anywhere in the registry.
    pub fn append(&mut self, chain: usize, seg: usize) -> (r: Result<usize, RegistryError>)
        requires
            wf(old(self)@),
        ensures
            wf(final(self)@),
            match r {
                Ok(idx) => chain < old(self)@.len()
                    && !seg_registered(old(self)@, seg)
                    && idx == old(self)@[chain as int].len()
                    && final(self)@ == append_model(old(self)@, chain as int, seg),
                Err(e) => final(self)@ == old(self)@
                    && (match e {
                        RegistryError::NoSuchChain => chain >= old(self)@.len(),
                        RegistryError::DuplicateSegment => chain < old(self)@.len()
                            && seg_registered(old(self)@, seg),
                    }),
            },
    {
        if chain >= self.chains.len() {
            return Err(RegistryError::NoSuchChain);
        }
        if self.is_registered(seg) {
            return Err(RegistryError::DuplicateSegment);
        }
        let ghost m = self@;
        let slot: &mut Vec<usize> = &mut self.chains[chain];
        let idx = slot.len();
        slot.push(seg);
        proof {
            let m2 = self@;
            assert(m2 =~= append_model(m, chain as int, seg));
            lemma_append_preserves_wf(m, chain as int, seg);
        }
        Ok(idx)
    }

    /// The identity at `(chain, index)`, when that entry exists.
    pub fn segment_at(&self, chain: usize, index: usize) -> (r: Option<usize>)
        ensures
            r == if has_index(self@, chain as int, index as int) {
                Some(entry(self@, chain as int, index as int))
            } else {
                None::<usize>
            },
    {
        if chain < self.chains.len() {
            let ch = &self.chains[chain];
            if index < ch.len() {
                return Some(ch[index]);
            }
        }
        None
    }

    /// The identity immediately ahead of `(chain, index)`: the entry at
    /// `index - 1`. A head (index 0) has no predecessor.
    pub fn predecessor_of(&self, chain: usize, index: usize) -> (r: Option<usize>)
        ensures
            index == 0 ==> r is None,
            index > 0 ==> r == if has_index(self@, chain as int, index - 1) {
                Some(entry(self@, chain as int, index - 1))
            } else {
                None::<usize>
            },
    {
        if index == 0 {
            None
        } else {
            self.segment_at(chain, index - 1)
        }
    }

    /// How many chains the registry holds.
    pub fn chain_count(&self) -> (r: usize)
        ensures
            r == self@.len(),
    {
        self.chains.len()
    }

    /// How many segments chain `chain` holds, when it exists.
    pub fn chain_len(&self, chain: usize) -> (r: Option<usize>)
        ensures
            r == if chain < self@.len() {
                Some(self@[chain as int].len() as usize)
            } else {
                None::<usize>
            },
            chain < self@.len() ==> self@[chain as int].len() <= usize::MAX,
    {
        if chain < self.chains.len() {
            let l = self.chains[chain].len();
            proof {
                assert(self.chains@[chain as int]@ == self@[chain as int]);
            }
            Some(l)
        } else {
            None
        }
    }
}

/// Creating a fresh chain with an unregistered head keeps the registry
/// well-formed.
pub proof fn lemma_create_preserves_wf(m: RegistryModel, head: usize)
    requires
        wf(m),
        !seg_registered(m, head),
    ensures
        wf(create_model(m, head)),
{
    let m2 = create_model(m, head);
    assert forall|c1: int, i1: int, c2: int, i2: int|
        has_index(m2, c1, i1) && has_index(m2, c2, i2)
            && #[trigger] entry(m2, c1, i1) == #[trigger] entry(m2, c2, i2)
            implies c1 == c2 && i1 == i2 by {
        if c1 < m.len() && c2 < m.len() {
            assert(entry(m, c1, i1) == entry(m, c2, i2));
        } else if c1 == m.len() && c2 < m.len() {
            assert(entry(m, c2, i2) == head);
            assert(seg_registered(m, head));
        } else if c1 < m.len() && c2 == m.len() {
            assert(entry(m, c1, i1) == head);
            assert(seg_registered(m, head));
        }
    }
}

/// Appending an unregistered identity to an existing chain keeps the
/// registry well-formed.
pub proof fn lemma_append_preserves_wf(m: RegistryModel, c: int, s: usize)
    requires
        wf(m),
        0 <= c < m.len(),
        !seg_registered(m, s),
    ensures
        wf(append_model(m, c, s)),
{
    let m2 = append_model(m, c, s);
    let new_i = m[c].len() as int;
    assert forall|c1: int, i1: int, c2: int, i2: int|
        has_index(m2, c1, i1) && has_index(m2, c2, i2)
            && #[trigger] entry(m2, c1, i1) == #[trigger] entry(m2, c2, i2)
            implies c1 == c2 && i1 == i2 by {
        let fresh1 = c1 == c && i1 == new_i;
        let fresh2 = c2 == c && i2 == new_i;
        if !fresh1 && !fresh2 {
            assert(entry(m2, c1, i1) == entry(m, c1, i1));
            assert(entry(m2, c2, i2) == entry(m, c2, i2));
            assert(entry(m, c1, i1) == entry(m, c2, i2));
        } else if fresh1 && !fresh2 {
            assert(entry(m2, c2, i2) == entry(m, c2, i2));
            assert(entry(m, c2, i2) == s);
            assert(seg_registered(m, s));
        } else if !fresh1 && fresh2 {
            assert(entry(m2, c1, i1) == entry(m, c1, i1));
            assert(entry(m, c1, i1) == s);
            assert(seg_registered(m, s));
        }
    }
}

/// Law: the indices present in a chain are contiguous from 0 — whenever an
/// index is present, so is every smaller one.
pub proof fn lemma_indices_contiguous(m: RegistryModel, c: int, i: int, j: int)
    requires
        has_index(m, c, i),
        0 <= j <= i,
    ensures
        has_index(m, c, j),
{
}

/// Law: `append` assigns the chain's pre-append segment count, so two
/// appends in a row assign strictly increasing indices.
pub proof fn lemma_append_indices_increase(m: RegistryModel, c: int, s1: usize, s2: usize)
    requires
        0 <= c < m.len(),
    ensures
        ({
            let first = m[c].len() as int;
            let second = append_model(m, c, s1)[c].len() as int;
            first < second && second == first + 1
        }),
{
}

/// Law: a registered identity stands in exactly one chain at exactly one
/// index — two occurrences of the same identity coincide.
pub proof fn lemma_identity_unique(m: RegistryModel, c1: int, i1: int, c2: int, i2: int)
    requires
        wf(m),
        has_index(m, c1, i1),
        has_index(m, c2, i2),
        entry(m, c1, i1) == entry(m, c2, i2),
    ensures
        c1 == c2 && i1 == i2,
{
}

} // verus!
