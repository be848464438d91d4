use vstd::prelude::*;

verus! {

/// ASCII lower-casing of one byte.
pub open spec fn lower(b: u8) -> u8 {
    if 65 <= b && b <= 90 {
        (b + 32) as u8
    } else {
        b
    }
}

/// Header names compare without regard to ASCII case.
pub open spec fn same_name(a: Seq<u8>, b: Seq<u8>) -> bool {
    a.len() == b.len() && forall|i: int| 0 <= i < a.len() ==> lower(#[trigger] a[i]) == lower(b[i])
}

pub type HeaderSeq = Seq<(Seq<u8>, Seq<u8>)>;

/// The entries of `s` whose name is not `name`, in their order.
pub open spec fn strip(s: HeaderSeq, name: Seq<u8>) -> HeaderSeq
    decreases s.len(),
{
    if s.len() == 0 {
        seq![]
    } else {
        let r = strip(s.drop_last(), name);
        if same_name(s.last().0, name) {
            r
        } else {
            r.push(s.last())
        }
    }
}

/// `s` holds an entry named `name`.
pub open spec fn has_name(s: HeaderSeq, name: Seq<u8>) -> bool {
    exists|k: int| 0 <= k < s.len() && same_name(#[trigger] s[k].0, name)
}

/// Index of the first entry named `name`, if any.
pub open spec fn first_index(s: HeaderSeq, name: Seq<u8>) -> Option<int>
    decreases s.len(),
{
    if s.len() == 0 {
        None
    } else if same_name(s[0].0, name) {
        Some(0)
    } else {
        match first_index(s.drop_first(), name) {
            Some(k) => Some(k + 1),
            None => None,
        }
    }
}

pub proof fn lemma_strip_lacks(s: HeaderSeq, name: Seq<u8>)
    ensures
        !has_name(strip(s, name), name),
        strip(s, name).len() <= s.len(),
    decreases s.len(),
{
    if s.len() > 0 {
        lemma_strip_lacks(s.drop_last(), name);
        let r = strip(s.drop_last(), name);
        if !same_name(s.last().0, name) {
            assert forall|k: int| 0 <= k < r.push(s.last()).len() implies !same_name(
                #[trigger] r.push(s.last())[k].0,
                name,
            ) by {
                if k < r.len() {
                    assert(r.push(s.last())[k] == r[k]);
                }
            }
        }
    }
}

/// Removing entries never brings a name in.
pub proof fn lemma_strip_keeps_absent(s: HeaderSeq, name: Seq<u8>, other: Seq<u8>)
    requires
        !has_name(s, other),
    ensures
        !has_name(strip(s, name), other),
    decreases s.len(),
{
    if s.len() > 0 {
        let f = s.drop_last();
        assert forall|k: int| 0 <= k < f.len() implies !same_name(#[trigger] f[k].0, other) by {
            assert(s[k] == f[k]);
        }
        lemma_strip_keeps_absent(f, name, other);
        let r = strip(f, name);
        assert(!same_name(s[s.len() - 1].0, other));
        if !same_name(s.last().0, name) {
            assert forall|k: int| 0 <= k < r.push(s.last()).len() implies !same_name(
                #[trigger] r.push(s.last())[k].0,
                other,
            ) by {
                if k < r.len() {
                    assert(r.push(s.last())[k] == r[k]);
                }
            }
        }
    }
}

/// Appending an entry of another name keeps a name absent.
pub proof fn lemma_push_keeps_absent(s: HeaderSeq, e: (Seq<u8>, Seq<u8>), other: Seq<u8>)
    requires
        !has_name(s, other),
        !same_name(e.0, other),
    ensures
        !has_name(s.push(e), other),
{
    assert forall|k: int| 0 <= k < s.push(e).len() implies !same_name(#[trigger] s.push(e)[k].0, other) by {
        if k < s.len() {
            assert(s.push(e)[k] == s[k]);
        }
    }
}

/// Equality of two header names, ignoring ASCII case.
pub fn name_eq(a: &[u8], b: &[u8]) -> (r: bool)
    ensures
        r == same_name(a@, b@),
{
    if a.len() != b.len() {
        return false;
    }
    let mut i: usize = 0;
    while i < a.len()
        invariant
            a@.len() == b@.len(),
            i <= a@.len(),
            forall|j: int| 0 <= j < i ==> lower(#[trigger] a@[j]) == lower(b@[j]),
        decreases a@.len() - i,
    {
        let x = a[i];
        let y = b[i];
        let lx: u8 = if 65 <= x && x <= 90 { x + 32 } else { x };
        let ly: u8 = if 65 <= y && y <= 90 { y + 32 } else { y };
        if lx != ly {
            assert(lower(a@[i as int]) != lower(b@[i as int]));
            return false;
        }
        i = i + 1;
    }
    true
}

/// The name and value of each entry, in order.
pub open spec fn entries_view(v: Seq<Header>) -> HeaderSeq {
    Seq::new(v.len(), |i: int| (v[i].name@, v[i].value@))
}

/// One header line: a name and a value, both raw bytes.
pub struct Header {
    pub name: Vec<u8>,
    pub value: Vec<u8>,
}

/// An ordered header list; a name may occur several times.
pub struct Headers {
    pub entries: Vec<Header>,
}

impl View for Headers {
    type V = HeaderSeq;

    open spec fn view(&self) -> HeaderSeq {
        entries_view(self.entries@)
    }
}

impl Headers {
    pub fn new() -> (r: Headers)
        ensures
            r@ == Seq::<(Seq<u8>, Seq<u8>)>::empty(),
    {
        let r = Headers { entries: Vec::new() };
        assert(r@ =~= Seq::<(Seq<u8>, Seq<u8>)>::empty());
        r
    }

    pub fn len(&self) -> (r: usize)
        ensures
            r == self@.len(),
    {
        self.entries.len()
    }

    /// Appends an entry at the end, keeping entries of the same name.
    pub fn append(&mut self, name: Vec<u8>, value: Vec<u8>)
        ensures
            final(self)@ == old(self)@.push((name@, value@)),
    {
        self.entries.push(Header { name, value });
        assert(final(self)@ =~= old(self)@.push((name@, value@)));
    }

    /// The value of the first entry named `name`.
    pub fn get(&self, name: &[u8]) -> (r: Option<&Vec<u8>>)
        ensures
            match first_index(self@, name@) {
                Some(k) => r.is_some() && r.unwrap()@ == self@[k].1,
                None => r.is_none(),
            },
    {
        let mut i: usize = 0;
        assert(self@.subrange(0, self@.len() as int) =~= self@);
        while i < self.entries.len()
            invariant
                i <= self@.len(),
                self@.len() == self.entries@.len(),
                first_index(self@, name@) == (match first_index(self@.subrange(i as int, self@.len() as int), name@) {
                    Some(k) => Some(k + i),
                    None => None::<int>,
                }),
            decreases self@.len() - i,
        {
            let ghost s = self@.subrange(i as int, self@.len() as int);
            if name_eq(self.entries[i].name.as_slice(), name) {
                assert(s[0] == self@[i as int]);
                return Some(&self.entries[i].value);
            }
            assert(s.drop_first() =~= self@.subrange(i + 1, self@.len() as int));
            i = i + 1;
        }
        assert(self@.subrange(i as int, self@.len() as int).len() == 0);
        None
    }

    /// Removes every entry named `name`, keeping the order of the rest.
    pub fn remove(&mut self, name: &[u8])
        ensures
            final(self)@ == strip(old(self)@, name@),
    {
        let ghost s = self@;
        let ghost mut j: int = 0;
        let mut i: usize = 0;
        while i < self.entries.len()
            invariant
                0 <= j <= s.len(),
                i == strip(s.subrange(0, j), name@).len(),
                self@ == strip(s.subrange(0, j), name@) + s.subrange(j, s.len() as int),
            decreases self@.len() - i,
        {
            let ghost done = strip(s.subrange(0, j), name@);
            assert(s.subrange(0, j + 1).drop_last() =~= s.subrange(0, j));
            assert(self@[i as int] == s[j]);
            assert(s.subrange(0, j + 1).last() == s[j]);
            let ghost before = self@;
            if name_eq(self.entries[i].name.as_slice(), name) {
                self.entries.remove(i);
                assert(self@ =~= before.remove(i as int));
                assert(self@ =~= done + s.subrange(j + 1, s.len() as int));
            } else {
                i = i + 1;
                assert(self@ =~= done.push(s[j]) + s.subrange(j + 1, s.len() as int));
            }
            proof {
                j = j + 1;
            }
        }
        assert(s.subrange(j, s.len() as int).len() == 0);
        assert(s.subrange(0, j) =~= s);
        assert(self@ =~= strip(s, name@));
    }

    /// Replaces every entry named `name` by one entry at the end.
    pub fn insert(&mut self, name: Vec<u8>, value: Vec<u8>)
        ensures
            final(self)@ == strip(old(self)@, name@).push((name@, value@)),
    {
        self.remove(name.as_slice());
        self.append(name, value);
    }
}

} // verus!
