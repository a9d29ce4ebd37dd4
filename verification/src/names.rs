//! Ordered sets of names, and text helpers for the checker's messages.
use vstd::prelude::*;
use vstd::string::*;

use crate::text::{chars_of, debug_text, str_debug};

verus! {

/// `s` with `x` added at the end, unless it is there already.
pub open spec fn name_insert(s: Seq<Seq<char>>, x: Seq<char>) -> Seq<Seq<char>> {
    if s.contains(x) {
        s
    } else {
        s.push(x)
    }
}

/// `s` without `x`, the other names in their order.
pub open spec fn name_remove(s: Seq<Seq<char>>, x: Seq<char>) -> Seq<Seq<char>>
    decreases s.len(),
{
    if s.len() == 0 {
        s
    } else {
        let r = name_remove(s.drop_last(), x);
        if s.last() == x {
            r
        } else {
            r.push(s.last())
        }
    }
}

/// `parts` joined with `sep` between them.
pub open spec fn join(parts: Seq<Seq<char>>, sep: Seq<char>) -> Seq<char>
    decreases parts.len(),
{
    if parts.len() == 0 {
        Seq::empty()
    } else if parts.len() == 1 {
        parts[0]
    } else {
        join(parts.drop_last(), sep) + sep + parts.last()
    }
}

/// The names each in their debugging notation.
pub open spec fn quoted(s: Seq<Seq<char>>) -> Seq<Seq<char>> {
    Seq::new(s.len(), |i: int| str_debug(s[i]))
}

/// Items between braces, separated by `, `.
pub open spec fn braced(items: Seq<Seq<char>>) -> Seq<char> {
    "{"@ + join(items, ", "@) + "}"@
}

/// The debugging notation of a set of names: `{"a", "b"}`.
pub open spec fn set_text(s: Seq<Seq<char>>) -> Seq<char> {
    braced(quoted(s))
}

/// Appends `items` between braces, separated by `, `.
pub fn append_braced(out: &mut String, items: &Vec<String>)
    ensures
        final(out)@ == old(out)@ + braced(Seq::new(items@.len(), |i: int| items@[i]@)),
{
    let ghost o = out@;
    let ghost all = Seq::new(items@.len(), |i: int| items@[i]@);
    out.append("{");
    let mut i: usize = 0;
    while i < items.len()
        invariant
            i <= items.len(),
            all == Seq::new(items@.len(), |i: int| items@[i]@),
            out@ == o + "{"@ + join(all.take(i as int), ", "@),
        decreases items.len() - i,
    {
        if i > 0 {
            out.append(", ");
        }
        out.append(items[i].as_str());
        proof {
            let q = all.take(i + 1);
            assert(q.drop_last() =~= all.take(i as int));
            assert(q.last() == items@[i as int]@);
            if i == 0 {
                assert(q.len() == 1);
            }
        }
        assert(out@ =~= o + "{"@ + join(all.take(i + 1), ", "@));
        i = i + 1;
    }
    assert(all.take(items.len() as int) =~= all);
    out.append("}");
    assert(out@ =~= o + braced(all));
}

/// A set of names that keeps the order in which they were added.
pub struct NameSet {
    names: Vec<String>,
}

impl View for NameSet {
    type V = Seq<Seq<char>>;

    closed spec fn view(&self) -> Seq<Seq<char>> {
        Seq::new(self.names@.len(), |i: int| self.names@[i]@)
    }
}

/// Dropping a name keeps the others distinct, and adds none.
pub proof fn lemma_remove_keeps_distinct(s: Seq<Seq<char>>, x: Seq<char>)
    requires
        s.no_duplicates(),
    ensures
        name_remove(s, x).no_duplicates(),
        forall|y: Seq<char>| #[trigger] name_remove(s, x).contains(y) ==> s.contains(y),
    decreases s.len(),
{
    if s.len() > 0 {
        let pre = s.drop_last();
        assert(pre.no_duplicates()) by {
            assert forall|i: int, j: int| 0 <= i < pre.len() && 0 <= j < pre.len() && i != j implies pre[i]
                != pre[j] by {
                assert(pre[i] == s[i] && pre[j] == s[j]);
            }
        }
        lemma_remove_keeps_distinct(pre, x);
        let r = name_remove(pre, x);
        assert forall|y: Seq<char>| #[trigger] pre.contains(y) implies s.contains(y) by {
            let j = choose|j: int| 0 <= j < pre.len() && pre[j] == y;
            assert(s[j] == y);
        }
        if s.last() != x {
            let t = r.push(s.last());
            assert(!r.contains(s.last())) by {
                if r.contains(s.last()) {
                    let j = choose|j: int| 0 <= j < pre.len() && pre[j] == s.last();
                    assert(s[j] == s[s.len() - 1]);
                }
            }
            assert forall|i: int, j: int| 0 <= i < t.len() && 0 <= j < t.len() && i != j implies t[i]
                != t[j] by {
                if i < r.len() && j < r.len() {
                } else if i < r.len() {
                    assert(r.contains(r[i]));
                } else if j < r.len() {
                    assert(r.contains(r[j]));
                }
            }
            assert forall|y: Seq<char>| #[trigger] t.contains(y) implies s.contains(y) by {
                let j = choose|j: int| 0 <= j < t.len() && t[j] == y;
                if j < r.len() {
                    assert(r.contains(y));
                } else {
                    assert(s[s.len() - 1] == y);
                }
            }
        }
    }
}

impl NameSet {
    /// No name occurs twice.
    #[verifier::type_invariant]
    spec fn distinct(self) -> bool {
        self@.no_duplicates()
    }

    pub fn new() -> (s: Self)
        ensures
            s@ == Seq::<Seq<char>>::empty(),
    {
        let s = NameSet { names: Vec::new() };
        assert(s@ =~= Seq::<Seq<char>>::empty());
        s
    }

    pub fn is_empty(&self) -> (b: bool)
        ensures
            b == (self@.len() == 0),
    {
        self.names.len() == 0
    }

    pub fn contains(&self, x: &String) -> (b: bool)
        ensures
            b == self@.contains(x@),
    {
        let mut i: usize = 0;
        while i < self.names.len()
            invariant
                i <= self.names.len(),
                forall|j: int| 0 <= j < i ==> self@[j] != x@,
            decreases self.names.len() - i,
        {
            if self.names[i] == *x {
                assert(self@[i as int] == x@);
                return true;
            }
            i = i + 1;
        }
        proof {
            if self@.contains(x@) {
                let j = choose|j: int| 0 <= j < self@.len() && self@[j] == x@;
                assert(self@[j] != x@);
            }
        }
        false
    }

    pub fn insert(&mut self, x: String)
        ensures
            final(self)@ == name_insert(old(self)@, x@),
    {
        proof {
            use_type_invariant(&*self);
        }
        if !self.contains(&x) {
            let ghost s0 = self@;
            let mut names: Vec<String> = Vec::new();
            std::mem::swap(&mut names, &mut self.names);
            names.push(x);
            let ghost t = Seq::new(names@.len(), |i: int| names@[i]@);
            assert(t =~= s0.push(x@));
            assert(t.no_duplicates()) by {
                assert forall|i: int, j: int| 0 <= i < t.len() && 0 <= j < t.len() && i != j implies t[i]
                    != t[j] by {
                    if i < s0.len() && j < s0.len() {
                    } else if i < s0.len() {
                        assert(s0[i] == t[i]);
                    } else {
                        assert(s0[j] == t[j]);
                    }
                }
            }
            self.names = names;
        }
    }

    /// Removes `x`; whether it was there.
    pub fn remove(&mut self, x: &String) -> (b: bool)
        ensures
            b == old(self)@.contains(x@),
            final(self)@ == name_remove(old(self)@, x@),
    {
        proof {
            use_type_invariant(&*self);
        }
        let found = self.contains(x);
        let ghost s0 = self@;
        let mut kept: Vec<String> = Vec::new();
        let mut i: usize = 0;
        while i < self.names.len()
            invariant
                i <= self.names.len(),
                self@ == s0,
                Seq::new(kept@.len(), |k: int| kept@[k]@) == name_remove(s0.take(i as int), x@),
            decreases self.names.len() - i,
        {
            assert(s0.take(i + 1).drop_last() =~= s0.take(i as int));
            if self.names[i] != *x {
                let n = self.names[i].clone();
                let ghost before = kept@;
                kept.push(n);
                assert(Seq::new(kept@.len(), |k: int| kept@[k]@) =~= Seq::new(
                    before.len(),
                    |k: int| before[k]@,
                ).push(n@));
            }
            i = i + 1;
        }
        assert(s0.take(self.names.len() as int) =~= s0);
        proof {
            lemma_remove_keeps_distinct(s0, x@);
        }
        self.names = kept;
        found
    }

    /// A copy of this set.
    pub fn duplicate(&self) -> (c: Self)
        ensures
            c@ == self@,
    {
        proof {
            use_type_invariant(self);
        }
        let mut names: Vec<String> = Vec::new();
        let mut i: usize = 0;
        while i < self.names.len()
            invariant
                i <= self.names.len(),
                Seq::new(names@.len(), |k: int| names@[k]@) == self@.take(i as int),
            decreases self.names.len() - i,
        {
            let n = self.names[i].clone();
            let ghost before = names@;
            names.push(n);
            assert(Seq::new(names@.len(), |k: int| names@[k]@) =~= Seq::new(
                before.len(),
                |k: int| before[k]@,
            ).push(n@));
            assert(self@.take(i + 1) =~= self@.take(i as int).push(self@[i as int]));
            i = i + 1;
        }
        let c = NameSet { names };
        assert(c@ =~= self@);
        c
    }

    /// Appends the debugging notation of the set to `out`.
    pub fn append_text(&self, out: &mut String)
        ensures
            final(out)@ == old(out)@ + set_text(self@),
    {
        let mut items: Vec<String> = Vec::new();
        let mut i: usize = 0;
        while i < self.names.len()
            invariant
                i <= self.names.len(),
                items@.len() == i,
                Seq::new(items@.len(), |k: int| items@[k]@) == quoted(self@.take(i as int)),
            decreases self.names.len() - i,
        {
            let d = debug_text(self.names[i].as_str());
            let ghost before = items@;
            items.push(d);
            assert(Seq::new(items@.len(), |k: int| items@[k]@) =~= quoted(self@.take(i + 1))) by {
                assert forall|k: int| 0 <= k <= i implies items@[k]@ == quoted(self@.take(i + 1))[k] by {
                    if k < i {
                        assert(items@[k] == before[k]);
                        assert(Seq::new(before.len(), |m: int| before[m]@)[k] == before[k]@);
                        assert(quoted(self@.take(i as int))[k] == str_debug(self@[k]));
                    } else {
                        assert(items@[k] == d);
                        assert(self@[k] == self.names@[k]@);
                    }
                }
            }
            i = i + 1;
        }
        assert(self@.take(self.names.len() as int) =~= self@);
        append_braced(out, &items);
    }
}

/// Whether `s` begins with `prefix`.
pub fn starts_with(s: &String, prefix: &str) -> (b: bool)
    ensures
        b == prefix@.is_prefix_of(s@),
{
    let sc = chars_of(s.as_str());
    let pc = chars_of(prefix);
    if pc.len() > sc.len() {
        return false;
    }
    let mut i: usize = 0;
    while i < pc.len()
        invariant
            pc.len() <= sc.len(),
            i <= pc.len(),
            sc@ == s@,
            pc@ == prefix@,
            forall|j: int| 0 <= j < i ==> pc@[j] == sc@[j],
        decreases pc.len() - i,
    {
        if pc[i] != sc[i] {
            assert(!(pc@ =~= sc@.subrange(0, pc@.len() as int)));
            return false;
        }
        i = i + 1;
    }
    assert(pc@ =~= sc@.subrange(0, pc@.len() as int));
    true
}

} // verus!
