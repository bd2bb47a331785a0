//! The set of module names that the discovery pass collects.

use vstd::prelude::*;
use crate::text::to_chars;

verus! {

/// The stems of the emitted modules. A name is held once, however often it
/// was inserted.
pub struct ModuleNameSet {
    names: Vec<Vec<char>>,
}

impl View for ModuleNameSet {
    type V = Set<Seq<char>>;

    closed spec fn view(&self) -> Set<Seq<char>> {
        self.name_seq().to_set()
    }
}

impl ModuleNameSet {
    /// The names in the order in which they were first inserted.
    pub closed spec fn name_seq(&self) -> Seq<Seq<char>> {
        Seq::new(self.names.len() as nat, |i: int| self.names[i]@)
    }

    /// No name is held twice.
    pub closed spec fn wf(&self) -> bool {
        self.name_seq().no_duplicates()
    }

    /// The empty set.
    pub fn new() -> (set: Self)
        ensures
            set.wf(),
            set@ == Set::<Seq<char>>::empty(),
    {
        let set = ModuleNameSet { names: Vec::new() };
        assert(set@ =~= Set::<Seq<char>>::empty());
        set
    }

    /// The number of names.
    pub fn len(&self) -> (n: usize)
        requires
            self.wf(),
        ensures
            self@.finite(),
            n == self@.len(),
    {
        proof {
            self.name_seq().unique_seq_to_set();
        }
        self.names.len()
    }

    /// Whether the characters `text[from..to]` spell a name of the set.
    pub fn contains_chars(&self, text: &Vec<char>, from: usize, to: usize) -> (found: bool)
        requires
            from <= to <= text.len(),
        ensures
            found == self@.contains(text@.subrange(from as int, to as int)),
    {
        let ghost wanted = text@.subrange(from as int, to as int);
        let mut k: usize = 0;
        while k < self.names.len()
            invariant
                k <= self.names.len(),
                from <= to <= text.len(),
                wanted == text@.subrange(from as int, to as int),
                forall|i: int| 0 <= i < k ==> self.name_seq()[i] != wanted,
            decreases self.names.len() - k,
        {
            if same_chars(&self.names[k], text, from, to) {
                assert(self.name_seq()[k as int] == wanted);
                return true;
            }
            k += 1;
        }
        false
    }

    /// Whether `name` is in the set.
    pub fn contains(&self, name: &str) -> (found: bool)
        ensures
            found == self@.contains(name@),
    {
        let chars = to_chars(name);
        assert(chars@.subrange(0, chars@.len() as int) == chars@);
        self.contains_chars(&chars, 0, chars.len())
    }

    /// Adds `name`, and says whether it was new.
    pub fn insert(&mut self, name: &str) -> (added: bool)
        requires
            old(self).wf(),
        ensures
            final(self).wf(),
            final(self)@ == old(self)@.insert(name@),
            added == !old(self)@.contains(name@),
    {
        let chars = to_chars(name);
        assert(chars@.subrange(0, chars@.len() as int) == chars@);
        if self.contains_chars(&chars, 0, chars.len()) {
            assert(self@ =~= self@.insert(name@));
            false
        } else {
            self.names.push(chars);
            assert(self.name_seq() =~= old(self).name_seq().push(name@));
            assert forall|n: Seq<char>| #[trigger] self@.contains(n) == old(self)@.insert(
                name@,
            ).contains(n) by {
                let before = old(self).name_seq();
                if self.name_seq().contains(n) {
                    let i = choose|i: int| 0 <= i < self.name_seq().len() && self.name_seq()[i] == n;
                    if i < before.len() {
                        assert(before[i] == n);
                    }
                }
                if before.contains(n) {
                    let i = choose|i: int| 0 <= i < before.len() && before[i] == n;
                    assert(self.name_seq()[i] == n);
                }
                if n == name@ {
                    assert(self.name_seq()[before.len() as int] == n);
                }
            }
            assert(self@ =~= old(self)@.insert(name@));
            true
        }
    }
}

/// Whether `name` equals `text[from..to]`, character by character.
fn same_chars(name: &Vec<char>, text: &Vec<char>, from: usize, to: usize) -> (same: bool)
    requires
        from <= to <= text.len(),
    ensures
        same == (name@ == text@.subrange(from as int, to as int)),
{
    if name.len() != to - from {
        return false;
    }
    let mut k: usize = 0;
    while k < name.len()
        invariant
            k <= name.len(),
            name.len() == to - from,
            from <= to <= text.len(),
            forall|i: int| 0 <= i < k ==> name@[i] == text@[from + i],
        decreases name.len() - k,
    {
        if name[k] != text[from + k] {
            assert(text@.subrange(from as int, to as int)[k as int] == text@[from + k]);
            return false;
        }
        k += 1;
    }
    assert(name@ =~= text@.subrange(from as int, to as int));
    true
}

} // verus!
