//! Value bindings: the slot that each Bril name of a function lives in.
//!
//! Bril names are flat. A name is not scoped to a block and may be assigned
//! many times; every assignment overwrites the one slot that the name owns.
//! Slots are numbered in the order in which names are first declared: the
//! formal parameters, then the destinations of the instructions in program
//! order.

use crate::model::{first_index, first_index_from, lemma_first_index_from};
use crate::model::{BlockView, Function, FunctionView, InstrView, ParamView};
use crate::native::NativeType;
use vstd::prelude::*;

verus! {

/// A bound name and the machine type of its slot.
#[derive(Debug)]
pub struct Binding {
    pub name: String,
    pub ty: NativeType,
}

/// The names of a function, each with the machine type of its slot. The slot
/// of a name is its position.
#[derive(Debug)]
pub struct Bindings {
    pub entries: Vec<Binding>,
}

/// `Bindings` as a mathematical value.
pub struct BindingsView {
    pub names: Seq<Seq<char>>,
    pub types: Seq<NativeType>,
}

impl View for Bindings {
    type V = BindingsView;

    open spec fn view(&self) -> BindingsView {
        BindingsView {
            names: Seq::new(self.entries@.len(), |i: int| self.entries@[i].name@),
            types: Seq::new(self.entries@.len(), |i: int| self.entries@[i].ty),
        }
    }
}

impl BindingsView {
    pub open spec fn empty() -> BindingsView {
        BindingsView { names: Seq::empty(), types: Seq::empty() }
    }

    /// Every name has a type, and no name has two slots.
    pub open spec fn wf(self) -> bool {
        &&& self.names.len() == self.types.len()
        &&& forall|i: int, j: int|
            0 <= i < j < self.names.len() ==> self.names[i] != self.names[j]
    }

    /// The slot of a name.
    pub open spec fn slot(self, name: Seq<char>) -> Option<usize> {
        match first_index(self.names, name) {
            Some(i) => Some(i as usize),
            None => None,
        }
    }

    /// The bindings once `name` has been declared with type `ty`: a name that
    /// is already bound keeps its slot and its type.
    pub open spec fn bind(self, name: Seq<char>, ty: NativeType) -> BindingsView {
        if self.slot(name) is Some {
            self
        } else {
            BindingsView { names: self.names.push(name), types: self.types.push(ty) }
        }
    }

    /// The bindings once the destination of an instruction, if it has one,
    /// has been declared.
    pub open spec fn bind_dest(self, dest: Option<ParamView>) -> BindingsView {
        match dest {
            Some(d) => self.bind(d.name, d.ty.native_type()),
            None => self,
        }
    }

    /// The bindings once the first `n` of `params` have been declared.
    pub open spec fn bind_params(self, params: Seq<ParamView>, n: int) -> BindingsView
        decreases n,
    {
        if n <= 0 {
            self
        } else {
            self.bind_params(params, n - 1).bind(
                params[n - 1].name,
                params[n - 1].ty.native_type(),
            )
        }
    }

    /// The bindings once the destinations of the first `n` of `instrs` have
    /// been declared.
    pub open spec fn bind_instrs(self, instrs: Seq<InstrView>, n: int) -> BindingsView
        decreases n,
    {
        if n <= 0 {
            self
        } else {
            self.bind_instrs(instrs, n - 1).bind_dest(instrs[n - 1].dest)
        }
    }

    /// The bindings once the destinations of the first `n` of `blocks` have
    /// been declared.
    pub open spec fn bind_blocks(self, blocks: Seq<BlockView>, n: int) -> BindingsView
        decreases n,
    {
        if n <= 0 {
            self
        } else {
            self.bind_blocks(blocks, n - 1).bind_instrs(
                blocks[n - 1].instrs,
                blocks[n - 1].instrs.len() as int,
            )
        }
    }

    /// The bindings of a function: its parameters, then its destinations.
    pub open spec fn of_function(func: FunctionView) -> BindingsView {
        BindingsView::empty().bind_params(func.params, func.params.len() as int).bind_blocks(
            func.blocks,
            func.blocks.len() as int,
        )
    }
}

/// A name has a slot exactly when it is among the bound names, and the slot
/// is then the position of the name.
pub proof fn lemma_slot(b: BindingsView, name: Seq<char>)
    requires
        b.names.len() <= usize::MAX,
    ensures
        match b.slot(name) {
            Some(s) => 0 <= s < b.names.len() && b.names[s as int] == name,
            None => !b.names.contains(name),
        },
        b.slot(name) is Some <==> b.names.contains(name),
{
    lemma_first_index_from(b.names, name, 0);
    match first_index(b.names, name) {
        Some(i) => {
            assert(b.names[i] == name);
            assert(b.names.contains(name));
        },
        None => {},
    }
}

/// Declaring a name keeps the bindings well-formed, keeps every slot that was
/// there, and leaves the name bound.
pub proof fn lemma_bind(b: BindingsView, name: Seq<char>, ty: NativeType)
    requires
        b.wf(),
    ensures
        b.bind(name, ty).wf(),
        b.bind(name, ty).names.contains(name),
        b.names.len() <= b.bind(name, ty).names.len() <= b.names.len() + 1,
        forall|i: int|
            0 <= i < b.names.len() ==> b.bind(name, ty).names[i] == b.names[i] && b.bind(
                name,
                ty,
            ).types[i] == b.types[i],
        forall|other: Seq<char>|
            b.bind(name, ty).names.contains(other) <==> (other == name || b.names.contains(other)),
{
    let after = b.bind(name, ty);
    lemma_first_index_from(b.names, name, 0);
    if b.slot(name) is Some {
        let i = first_index(b.names, name).unwrap();
        assert(b.names[i] == name);
        assert(after.names.contains(name));
    } else {
        assert(after.names.last() == name);
        assert(after.names.contains(name));
        assert forall|other: Seq<char>| after.names.contains(other) implies (other == name
            || b.names.contains(other)) by {
            let k = choose|k: int| 0 <= k < after.names.len() && after.names[k] == other;
            if k < b.names.len() {
                assert(b.names[k] == other);
            }
        }
        assert forall|other: Seq<char>| b.names.contains(other) implies after.names.contains(
            other,
        ) by {
            let k = choose|k: int| 0 <= k < b.names.len() && b.names[k] == other;
            assert(after.names[k] == other);
        }
    }
}

impl Bindings {
    /// The machine type of a slot.
    pub fn slot_type(&self, slot: usize) -> (r: NativeType)
        requires
            slot < self@.types.len(),
        ensures
            r == self@.types[slot as int],
    {
        self.entries[slot].ty
    }

    /// The number of slots.
    pub fn len(&self) -> (r: usize)
        ensures
            r == self@.names.len(),
            r == self@.types.len(),
    {
        self.entries.len()
    }

    pub fn new() -> (r: Bindings)
        ensures
            r@ == BindingsView::empty(),
            r@.wf(),
    {
        let r = Bindings { entries: Vec::new() };
        assert(r@.names =~= Seq::empty());
        assert(r@.types =~= Seq::empty());
        r
    }

    /// The slot of a name, if the name is bound.
    pub fn slot(&self, name: &String) -> (r: Option<usize>)
        ensures
            r == self@.slot(name@),
            r matches Some(s) ==> s < self@.names.len() && self@.names[s as int] == name@,
    {
        let mut i: usize = 0;
        while i < self.entries.len()
            invariant
                i <= self.entries.len(),
                first_index(self@.names, name@) == first_index_from(self@.names, name@, i as int),
            decreases self.entries.len() - i,
        {
            if self.entries[i].name == *name {
                return Some(i);
            }
            i += 1;
        }
        None
    }

    /// Declares a name: a fresh name gets the next slot, a bound one keeps
    /// its slot.
    pub fn bind(&mut self, name: &String, ty: NativeType)
        ensures
            final(self)@ == old(self)@.bind(name@, ty),
    {
        if self.slot(name).is_none() {
            self.entries.push(Binding { name: name.clone(), ty });
            assert(self@.names =~= old(self)@.names.push(name@));
            assert(self@.types =~= old(self)@.types.push(ty));
        }
    }

    /// The bindings of a function.
    pub fn of_function(func: &Function) -> (r: Bindings)
        ensures
            r@ == BindingsView::of_function(func@),
    {
        let mut b = Bindings::new();
        let mut i: usize = 0;
        while i < func.params.len()
            invariant
                i <= func.params.len(),
                b@ == BindingsView::empty().bind_params(func@.params, i as int),
            decreases func.params.len() - i,
        {
            b.bind(&func.params[i].name, func.params[i].ty.native());
            i += 1;
        }
        let ghost start = b@;
        let mut k: usize = 0;
        while k < func.blocks.len()
            invariant
                k <= func.blocks.len(),
                b@ == start.bind_blocks(func@.blocks, k as int),
            decreases func.blocks.len() - k,
        {
            let block = &func.blocks[k];
            let ghost before = b@;
            let mut j: usize = 0;
            while j < block.instrs.len()
                invariant
                    j <= block.instrs.len(),
                    b@ == before.bind_instrs(block@.instrs, j as int),
                decreases block.instrs.len() - j,
            {
                match &block.instrs[j].dest {
                    Some(d) => {
                        b.bind(&d.name, d.ty.native());
                    },
                    None => {},
                }
                j += 1;
            }
            k += 1;
        }
        b
    }
}

} // verus!
