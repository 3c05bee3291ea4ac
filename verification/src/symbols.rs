use vstd::prelude::*;

verus! {

/// The interner: each name has one id, its place in the table.
pub struct SymbolTable {
    pub names: Vec<String>,
}

impl SymbolTable {
    /// The names, by id.
    pub open spec fn view(&self) -> Seq<Seq<char>> {
        Seq::new(self.names@.len(), |i: int| self.names@[i]@)
    }

    /// No name stands twice, and every id fits into 32 bits.
    pub open spec fn wf(&self) -> bool {
        &&& self.names@.len() <= 0x1_0000_0000
        &&& forall|i: int, j: int|
            0 <= i < j < self.names@.len() ==> self.names@[i]@ != self.names@[j]@
    }

    pub open spec fn spec_has_room(&self) -> bool {
        self.names@.len() < 0x1_0000_0000
    }

    /// The table after `name` is interned: unchanged where it holds the name,
    /// else with the name added at the end.
    pub open spec fn interned(names: Seq<Seq<char>>, name: Seq<char>) -> Seq<Seq<char>> {
        if names.contains(name) {
            names
        } else {
            names.push(name)
        }
    }

    pub fn new() -> (r: Self)
        ensures
            r.wf(),
            r@ == Seq::<Seq<char>>::empty(),
    {
        let r = SymbolTable { names: Vec::new() };
        assert(r@ =~= Seq::<Seq<char>>::empty());
        r
    }

    /// Whether one more name can be interned.
    #[verifier::when_used_as_spec(spec_has_room)]
    pub fn has_room(&self) -> (r: bool)
        ensures
            r == self.spec_has_room(),
    {
        (self.names.len() as u64) < 0x1_0000_0000
    }

    /// The id of `name`, which is added to the table if it is new.
    pub fn intern(&mut self, name: String) -> (id: u32)
        requires
            old(self).wf(),
            old(self).spec_has_room(),
        ensures
            final(self).wf(),
            final(self)@ == Self::interned(old(self)@, name@),
            id < final(self)@.len(),
            final(self)@[id as int] == name@,
    {
        let mut i: usize = 0;
        while i < self.names.len()
            invariant
                i <= self.names@.len(),
                old(self).wf(),
                old(self).spec_has_room(),
                self.names@ == old(self).names@,
                forall|j: int| 0 <= j < i ==> self.names@[j]@ != name@,
            decreases self.names@.len() - i,
        {
            if self.names[i] == name {
                assert(self@[i as int] == name@);
                return i as u32;
            }
            i += 1;
        }
        assert(!old(self)@.contains(name@)) by {
            if old(self)@.contains(name@) {
                let j = choose|j: int| 0 <= j < old(self)@.len() && old(self)@[j] == name@;
                assert(self.names@[j]@ == name@);
            }
        }
        self.names.push(name);
        assert(self@ =~= old(self)@.push(name@));
        i as u32
    }

    /// The name with the given id.
    pub fn lookup(&self, id: u32) -> (r: Option<&String>)
        ensures
            r is Some <==> (id as int) < self@.len(),
            r is Some ==> r.unwrap()@ == self@[id as int],
    {
        if (id as usize) < self.names.len() {
            Some(&self.names[id as usize])
        } else {
            None
        }
    }
}

} // verus!
