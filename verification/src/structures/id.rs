use vstd::prelude::*;

use crate::utils::bytes_eq;

verus! {

/// An interning table: hands out dense, zero-based identifiers for names,
/// the same identifier each time the same name comes back. The identifier
/// is the name's position in insertion order.
pub struct Id<'a> {
    items: Vec<&'a [u8]>,
}

impl<'a> View for Id<'a> {
    type V = Seq<Seq<u8>>;

    closed spec fn view(&self) -> Seq<Seq<u8>> {
        self.items@.map_values(|x: &'a [u8]| x@)
    }
}

/// Index of the first occurrence of `x` in `s`, or -1 when there is none.
pub open spec fn find_key(s: Seq<Seq<u8>>, x: Seq<u8>) -> int
    decreases s.len(),
{
    if s.len() == 0 {
        -1
    } else if s[0] == x {
        0
    } else {
        let r = find_key(s.skip(1), x);
        if r == -1 {
            -1
        } else {
            r + 1
        }
    }
}

/// What `find_key` finds: no occurrence at all, or the first one.
pub proof fn lemma_find_key(s: Seq<Seq<u8>>, x: Seq<u8>)
    ensures
        find_key(s, x) == -1 <==> (forall|i: int| 0 <= i < s.len() ==> #[trigger] s[i] != x),
        find_key(s, x) >= 0 ==> 0 <= find_key(s, x) < s.len() && s[find_key(s, x)] == x,
        find_key(s, x) >= -1,
        find_key(s, x) >= 0 ==> (forall|j: int|
            0 <= j < find_key(s, x) ==> #[trigger] s[j] != x),
    decreases s.len(),
{
    if s.len() > 0 {
        lemma_find_key(s.skip(1), x);
        if s[0] != x {
            assert forall|i: int| 0 <= i < s.len() && #[trigger] s[i] == x implies find_key(s, x)
                >= 0 by {
                if i > 0 {
                    assert(s.skip(1)[i - 1] == x);
                }
            }
            if find_key(s, x) >= 0 {
                assert forall|j: int| 0 <= j < find_key(s, x) implies #[trigger] s[j] != x by {
                    if j > 0 {
                        assert(s.skip(1)[j - 1] != x);
                        assert(s[j] == s.skip(1)[j - 1]);
                    }
                }
            }
        }
    }
}

/// No name is interned twice.
pub open spec fn keys_distinct(s: Seq<Seq<u8>>) -> bool {
    forall|i: int, j: int| 0 <= i < j < s.len() ==> s[i] != s[j]
}

impl<'a> Id<'a> {
    /// The table's names never repeat.
    pub open spec fn wf(&self) -> bool {
        keys_distinct(self@)
    }

    /// The identifier of `item`, and whether it was already interned: the
    /// position of its first occurrence, or a fresh identifier at the end.
    pub fn get(&mut self, item: &'a [u8]) -> (r: (usize, bool))
        requires
            old(self).wf(),
        ensures
            final(self).wf(),
            r.1 ==> find_key(old(self)@, item@) == r.0 && final(self)@ == old(self)@,
            !r.1 ==> find_key(old(self)@, item@) == -1 && r.0 == old(self)@.len() && final(self)@
                == old(self)@.push(item@),
            final(self)@[r.0 as int] == item@,
            r.0 < final(self)@.len(),
    {
        let ghost sv = self@;
        let mut i: usize = 0;
        while i < self.items.len()
            invariant
                i <= self.items@.len(),
                self.items@ == old(self).items@,
                sv == self.items@.map_values(|x: &'a [u8]| x@),
                keys_distinct(sv),
                forall|j: int| 0 <= j < i ==> #[trigger] sv[j] != item@,
            decreases self.items@.len() - i,
        {
            if bytes_eq(self.items[i], item) {
                proof {
                    lemma_find_key(sv, item@);
                    assert(sv[i as int] == item@);
                    let ix = find_key(sv, item@);
                    assert(ix == i);
                    assert(self@ == old(self)@);
                    assert(keys_distinct(self@));
                }
                return (i, true);
            }
            i += 1;
        }
        proof {
            lemma_find_key(sv, item@);
        }
        let id = self.items.len();
        self.items.push(item);
        proof {
            assert(self@ =~= sv.push(item@));
            assert forall|a: int, b: int| 0 <= a < b < self@.len() implies self@[a] != self@[b] by {
                if b == sv.len() {
                    assert(self@[a] == sv[a]);
                }
            }
        }
        (id, false)
    }

    /// How many names are interned.
    pub fn len(&self) -> (r: usize)
        ensures
            r == self@.len(),
    {
        self.items.len()
    }
}

impl<'a> Default for Id<'a> {
    /// An empty interning table.
    fn default() -> (r: Self)
        ensures
            r@ == Seq::<Seq<u8>>::empty(),
            r.wf(),
    {
        let items: Vec<&'a [u8]> = Vec::new();
        proof {
            assert(items@.map_values(|x: &'a [u8]| x@) =~= Seq::<Seq<u8>>::empty());
        }
        Id { items }
    }
}

} // verus!
