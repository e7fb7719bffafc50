use vstd::prelude::*;
use crate::errors::{ErrorSeverity, ScopeManagerError};
use crate::heap::Heap;
use crate::span::Span;
use crate::text::{append_str, string_of};
use crate::types::{type_label, Type};
use crate::value::{refs_within, view_type, Value, ValueView};

verus! {

/// The binding a map gives a name, if any.
pub open spec fn binding(m: Map<Seq<char>, usize>, name: Seq<char>) -> Option<usize> {
    if m.dom().contains(name) { Some(m[name]) } else { None }
}

/// The map that a list of (name, cell) entries denotes.
pub open spec fn entries_map(e: Seq<(Seq<char>, usize)>) -> Map<Seq<char>, usize>
    decreases e.len(),
{
    if e.len() == 0 {
        Map::empty()
    } else {
        entries_map(e.drop_last()).insert(e.last().0, e.last().1)
    }
}

pub open spec fn distinct_names(e: Seq<(Seq<char>, usize)>) -> bool {
    forall|i: int, j: int| 0 <= i < j < e.len() ==> e[i].0 != e[j].0
}

proof fn lemma_entries_map(e: Seq<(Seq<char>, usize)>, name: Seq<char>)
    requires
        distinct_names(e),
    ensures
        entries_map(e).dom().contains(name) <==> exists|i: int| 0 <= i < e.len() && e[i].0 == name,
        forall|i: int| 0 <= i < e.len() && e[i].0 == name ==> entries_map(e)[name] == e[i].1,
    decreases e.len(),
{
    if e.len() > 0 {
        let d = e.drop_last();
        assert(distinct_names(d));
        lemma_entries_map(d, name);
        if name == e.last().0 {
        } else {
            assert forall|i: int| 0 <= i < e.len() && e[i].0 == name implies 0 <= i < d.len() && d[i].0 == name by {
            }
            if entries_map(d).dom().contains(name) {
                let i = choose|i: int| 0 <= i < d.len() && d[i].0 == name;
                assert(e[i].0 == name);
            }
        }
    }
}

/// Whether a type accepts a value: the value has that type, or the type is a vector type
/// and the value is an empty vector literal (whose element type is not known yet).
pub open spec fn type_accepts(t: Type, v: ValueView) -> bool {
    view_type(v) == t || (t is Vector && v matches ValueView::Vector { kind: Type::Void, .. })
}

pub fn type_accepts_value(t: &Type, v: &Value) -> (r: bool)
    ensures
        r == type_accepts(*t, v@),
{
    if v.to_type().same_as(t) {
        true
    } else {
        match (t, v) {
            (Type::Vector(_), Value::Vector { kind, .. }) => match **kind {
                Type::Void => true,
                _ => false,
            },
            _ => false,
        }
    }
}

pub open spec fn not_declared_message(name: Seq<char>) -> Seq<char> {
    "Variable '"@ + name + "' not declared."@
}

pub open spec fn redeclare_message(name: Seq<char>) -> Seq<char> {
    "Cannot redeclare variable '"@ + name + "'."@
}

pub open spec fn bad_assign_message(found: Type, name: Seq<char>, declared: Type) -> Seq<char> {
    "Cannot assign '"@ + type_label(found) + "' to variable '"@ + name + "' which was previously declared as '"@
        + type_label(declared) + "'."@
}

/// One block's variables: each name is bound to the heap cell that holds its value.
pub struct Scope {
    entries: Vec<(String, usize)>,
}

impl View for Scope {
    type V = Map<Seq<char>, usize>;

    closed spec fn view(&self) -> Map<Seq<char>, usize> {
        entries_map(self.entry_names())
    }
}

impl Scope {
    closed spec fn entry_names(&self) -> Seq<(Seq<char>, usize)> {
        self.entries@.map_values(|e: (String, usize)| (e.0@, e.1))
    }

    /// Names are bound at most once.
    pub closed spec fn wf(&self) -> bool {
        distinct_names(self.entry_names())
    }

    /// An empty scope.
    pub fn new() -> (s: Scope)
        ensures
            s@ == Map::<Seq<char>, usize>::empty(),
            s.wf(),
    {
        let s = Scope { entries: Vec::new() };
        assert(s.entry_names() =~= Seq::<(Seq<char>, usize)>::empty());
        s
    }

    /// The cell bound to `searched`, if any.
    pub fn get_variable(&self, searched: &str) -> (r: Option<usize>)
        requires
            self.wf(),
        ensures
            r == binding(self@, searched@),
    {
        let n = self.entries.len();
        let ghost e = self.entry_names();
        proof { lemma_entries_map(e, searched@); }
        let key = string_of(searched);
        let mut i: usize = 0;
        while i < n
            invariant
                0 <= i <= n,
                n == self.entries@.len(),
                e == self.entry_names(),
                distinct_names(e),
                key@ == searched@,
                forall|j: int| 0 <= j < i ==> e[j].0 != searched@,
            decreases n - i,
        {
            assert(e[i as int] == (self.entries@[i as int].0@, self.entries@[i as int].1));
            if self.entries[i].0 == key {
                assert(e[i as int].0 == searched@);
                proof { lemma_entries_map(e, searched@); }
                return Some(self.entries[i].1);
            }
            i = i + 1;
        }
        None
    }

    /// Binds `name` to `cell`; refused when `name` is already bound here.
    pub fn declare_variable(&mut self, name: &str, cell: usize, span: Span) -> (r: Result<(), ScopeManagerError>)
        requires
            old(self).wf(),
        ensures
            final(self).wf(),
            match r {
                Ok(()) => !old(self)@.dom().contains(name@) && final(self)@ == old(self)@.insert(name@, cell),
                Err(e) => old(self)@.dom().contains(name@) && final(self)@ == old(self)@
                    && e.message@ == redeclare_message(name@) && e.span == span,
            },
    {
        match self.get_variable(name) {
            Some(_) => {
                let mut m = string_of("Cannot redeclare variable '");
                append_str(&mut m, name);
                append_str(&mut m, "'.");
                Err(ScopeManagerError::new(ErrorSeverity::HIGH, m, span))
            },
            None => {
                let ghost e0 = self.entry_names();
                self.entries.push((string_of(name), cell));
                assert(self.entry_names() =~= e0.push((name@, cell)));
                assert(self.entry_names().drop_last() =~= e0);
                proof {
                    lemma_entries_map(e0, name@);
                    assert forall|i: int, j: int| 0 <= i < j < self.entry_names().len() implies self.entry_names()[i].0 != self.entry_names()[j].0 by {
                        if j == e0.len() {
                            assert(!entries_map(e0).dom().contains(name@));
                        }
                    }
                }
                Ok(())
            },
        }
    }

    /// Stores `value` into the cell bound to `name` when the cell's current type accepts it.
    pub fn assign_variable(&self, name: &str, value: Value, heap: &mut Heap, span: Span) -> (r: Result<(), ScopeManagerError>)
        requires
            self.wf(),
            old(heap).wf(),
            forall|k: Seq<char>| self@.dom().contains(k) ==> self@[k] < old(heap)@.cells.len(),
            refs_within(value@, old(heap)@.vectors.len()),
        ensures
            final(heap).wf(),
            match r {
                Ok(()) => self@.dom().contains(name@)
                    && type_accepts(view_type(old(heap)@.cells[self@[name@] as int]), value@)
                    && final(heap)@ == old(heap)@.set_cell(self@[name@] as int, value@),
                Err(e) => final(heap)@ == old(heap)@ && e.span == span && if !self@.dom().contains(name@) {
                    e.message@ == not_declared_message(name@)
                } else {
                    !type_accepts(view_type(old(heap)@.cells[self@[name@] as int]), value@)
                        && e.message@ == bad_assign_message(view_type(value@), name@, view_type(old(heap)@.cells[self@[name@] as int]))
                },
            },
    {
        match self.get_variable(name) {
            None => {
                let mut m = string_of("Variable '");
                append_str(&mut m, name);
                append_str(&mut m, "' not declared.");
                Err(ScopeManagerError::new(ErrorSeverity::HIGH, m, span))
            },
            Some(cell) => {
                let previous = heap.read(cell).to_type();
                if type_accepts_value(&previous, &value) {
                    heap.write(cell, value);
                    Ok(())
                } else {
                    let mut m = string_of("Cannot assign '");
                    append_str(&mut m, value.to_type().label().as_str());
                    append_str(&mut m, "' to variable '");
                    append_str(&mut m, name);
                    append_str(&mut m, "' which was previously declared as '");
                    append_str(&mut m, previous.label().as_str());
                    append_str(&mut m, "'.");
                    Err(ScopeManagerError::new(ErrorSeverity::HIGH, m, span))
                }
            },
        }
    }

    /// A copy of the scope.
    pub fn duplicate(&self) -> (r: Scope)
        ensures
            r@ == self@,
            r.wf() == self.wf(),
    {
        let mut entries: Vec<(String, usize)> = Vec::new();
        let n = self.entries.len();
        let mut i: usize = 0;
        while i < n
            invariant
                0 <= i <= n,
                n == self.entries@.len(),
                entries@.len() == i,
                forall|j: int| 0 <= j < i ==> #[trigger] entries@[j] == self.entries@[j],
            decreases n - i,
        {
            let e = &self.entries[i];
            entries.push((e.0.clone(), e.1));
            i = i + 1;
        }
        let r = Scope { entries };
        assert(r.entry_names() =~= self.entry_names());
        r
    }

    /// Whether no name is bound.
    pub fn is_empty(&self) -> (r: bool)
        requires
            self.wf(),
        ensures
            r == (self@.dom().len() == 0),
    {
        proof { lemma_entries_map_len(self.entry_names()); }
        self.entries.len() == 0
    }
}

proof fn lemma_entries_map_len(e: Seq<(Seq<char>, usize)>)
    requires
        distinct_names(e),
    ensures
        entries_map(e).dom().finite(),
        entries_map(e).dom().len() == e.len(),
    decreases e.len(),
{
    if e.len() > 0 {
        let d = e.drop_last();
        assert(distinct_names(d));
        lemma_entries_map_len(d);
        lemma_entries_map(d, e.last().0);
        assert(!entries_map(d).dom().contains(e.last().0));
    }
}

} // verus!
