//! The constraint system: the column registry, constraint sets, and lookup arguments.
use crate::error::Error;
use crate::expr::{contains_column, Column, ColumnKind, Expr, Selector};
use vstd::prelude::*;

verus! {

/// One polynomial of a constraint set, with a label for diagnostics.
#[derive(Debug)]
pub struct Constraint {
    pub label: String,
    pub poly: Expr,
}

/// A named set of polynomials that must vanish at every row where `selector` is enabled.
#[derive(Debug)]
pub struct Gate {
    pub name: String,
    pub selector: Selector,
    pub constraints: Vec<Constraint>,
}

/// At every row where the selector (if any) is enabled, the value of `input`
/// must occur among the assigned cells of the fixed column `table`.
#[derive(Debug)]
pub struct Lookup {
    pub name: String,
    pub selector: Option<Selector>,
    pub input: Expr,
    pub table: Column,
}

/// The registry of declared columns, selectors, constraint sets and lookups.
#[derive(Debug)]
pub struct ConstraintSystem {
    pub num_advice: usize,
    pub num_instance: usize,
    pub num_fixed: usize,
    pub num_selectors: usize,
    /// Columns on which copy constraints are allowed.
    pub equality: Vec<Column>,
    pub gates: Vec<Gate>,
    pub lookups: Vec<Lookup>,
}

impl ConstraintSystem {
    pub open spec fn column_declared(&self, c: Column) -> bool {
        match c.kind {
            ColumnKind::Advice => c.index < self.num_advice,
            ColumnKind::Instance => c.index < self.num_instance,
            ColumnKind::Fixed => c.index < self.num_fixed,
        }
    }

    pub open spec fn equality_enabled(&self, c: Column) -> bool {
        self.equality@.contains(c)
    }

    /// Every column and selector that `e` names is declared, and its constants are canonical.
    pub open spec fn expr_declared(&self, e: Expr) -> bool
        decreases e,
    {
        match e {
            Expr::Constant(f) => f.wf(),
            Expr::Query(c, _) => self.column_declared(c),
            Expr::Select(s) => s.index < self.num_selectors,
            Expr::Neg(a) => self.expr_declared(*a),
            Expr::Sum(a, b) => self.expr_declared(*a) && self.expr_declared(*b),
            Expr::Product(a, b) => self.expr_declared(*a) && self.expr_declared(*b),
        }
    }

    pub open spec fn gate_wf(&self, g: Gate) -> bool {
        &&& g.selector.index < self.num_selectors
        &&& forall|j: int|
            0 <= j < g.constraints@.len() ==> #[trigger] self.expr_declared(
                g.constraints@[j].poly,
            )
    }

    pub open spec fn lookup_wf(&self, l: Lookup) -> bool {
        &&& (l.selector matches Some(s) ==> s.index < self.num_selectors)
        &&& self.expr_declared(l.input)
        &&& l.table.kind == ColumnKind::Fixed
        &&& l.table.index < self.num_fixed
    }

    /// Everything registered refers only to what was declared.
    pub open spec fn wf(&self) -> bool {
        &&& forall|c: Column| #[trigger] self.equality@.contains(c) ==> self.column_declared(c)
        &&& forall|i: int| 0 <= i < self.gates@.len() ==> #[trigger] self.gate_wf(self.gates@[i])
        &&& forall|i: int|
            0 <= i < self.lookups@.len() ==> #[trigger] self.lookup_wf(self.lookups@[i])
    }

    /// The counts and registrations of `self` are those of `o`.
    pub open spec fn same_registry(&self, o: &ConstraintSystem) -> bool {
        &&& self.num_advice == o.num_advice
        &&& self.num_instance == o.num_instance
        &&& self.num_fixed == o.num_fixed
        &&& self.num_selectors == o.num_selectors
        &&& self.equality@ == o.equality@
        &&& self.gates@ == o.gates@
        &&& self.lookups@ == o.lookups@
    }

    /// An empty system.
    pub fn new() -> (r: ConstraintSystem)
        ensures
            r.wf(),
            r.num_advice == 0,
            r.num_instance == 0,
            r.num_fixed == 0,
            r.num_selectors == 0,
            r.equality@.len() == 0,
            r.gates@.len() == 0,
            r.lookups@.len() == 0,
    {
        ConstraintSystem {
            num_advice: 0,
            num_instance: 0,
            num_fixed: 0,
            num_selectors: 0,
            equality: Vec::new(),
            gates: Vec::new(),
            lookups: Vec::new(),
        }
    }

    /// Declares a fresh advice column.
    pub fn advice_column(&mut self) -> (r: Column)
        requires
            old(self).wf(),
            old(self).num_advice < usize::MAX,
        ensures
            final(self).wf(),
            r == (Column { kind: ColumnKind::Advice, index: old(self).num_advice }),
            final(self).num_advice == old(self).num_advice + 1,
            final(self).num_instance == old(self).num_instance,
            final(self).num_fixed == old(self).num_fixed,
            final(self).num_selectors == old(self).num_selectors,
            final(self).equality@ == old(self).equality@,
            final(self).gates@ == old(self).gates@,
            final(self).lookups@ == old(self).lookups@,
    {
        let r = Column { kind: ColumnKind::Advice, index: self.num_advice };
        self.num_advice = self.num_advice + 1;
        proof { self.lemma_wf_grows(*old(self)); }
        r
    }

    /// Declares a fresh instance column.
    pub fn instance_column(&mut self) -> (r: Column)
        requires
            old(self).wf(),
            old(self).num_instance < usize::MAX,
        ensures
            final(self).wf(),
            r == (Column { kind: ColumnKind::Instance, index: old(self).num_instance }),
            final(self).num_advice == old(self).num_advice,
            final(self).num_instance == old(self).num_instance + 1,
            final(self).num_fixed == old(self).num_fixed,
            final(self).num_selectors == old(self).num_selectors,
            final(self).equality@ == old(self).equality@,
            final(self).gates@ == old(self).gates@,
            final(self).lookups@ == old(self).lookups@,
    {
        let r = Column { kind: ColumnKind::Instance, index: self.num_instance };
        self.num_instance = self.num_instance + 1;
        proof { self.lemma_wf_grows(*old(self)); }
        r
    }

    /// Declares a fresh fixed column to be used as a lookup table.
    pub fn lookup_table_column(&mut self) -> (r: Column)
        requires
            old(self).wf(),
            old(self).num_fixed < usize::MAX,
        ensures
            final(self).wf(),
            r == (Column { kind: ColumnKind::Fixed, index: old(self).num_fixed }),
            final(self).num_advice == old(self).num_advice,
            final(self).num_instance == old(self).num_instance,
            final(self).num_fixed == old(self).num_fixed + 1,
            final(self).num_selectors == old(self).num_selectors,
            final(self).equality@ == old(self).equality@,
            final(self).gates@ == old(self).gates@,
            final(self).lookups@ == old(self).lookups@,
    {
        let r = Column { kind: ColumnKind::Fixed, index: self.num_fixed };
        self.num_fixed = self.num_fixed + 1;
        proof { self.lemma_wf_grows(*old(self)); }
        r
    }

    fn fresh_selector(&mut self, complex: bool) -> (r: Selector)
        requires
            old(self).wf(),
            old(self).num_selectors < usize::MAX,
        ensures
            final(self).wf(),
            r == (Selector { index: old(self).num_selectors, complex }),
            final(self).num_advice == old(self).num_advice,
            final(self).num_instance == old(self).num_instance,
            final(self).num_fixed == old(self).num_fixed,
            final(self).num_selectors == old(self).num_selectors + 1,
            final(self).equality@ == old(self).equality@,
            final(self).gates@ == old(self).gates@,
            final(self).lookups@ == old(self).lookups@,
    {
        let r = Selector { index: self.num_selectors, complex };
        self.num_selectors = self.num_selectors + 1;
        proof { self.lemma_wf_grows(*old(self)); }
        r
    }

    /// Declares a fresh simple selector, for constraint sets.
    pub fn selector(&mut self) -> (r: Selector)
        requires
            old(self).wf(),
            old(self).num_selectors < usize::MAX,
        ensures
            final(self).wf(),
            r == (Selector { index: old(self).num_selectors, complex: false }),
            final(self).num_advice == old(self).num_advice,
            final(self).num_instance == old(self).num_instance,
            final(self).num_fixed == old(self).num_fixed,
            final(self).num_selectors == old(self).num_selectors + 1,
            final(self).equality@ == old(self).equality@,
            final(self).gates@ == old(self).gates@,
            final(self).lookups@ == old(self).lookups@,
    {
        self.fresh_selector(false)
    }

    /// Declares a fresh complex selector, for lookups.
    pub fn complex_selector(&mut self) -> (r: Selector)
        requires
            old(self).wf(),
            old(self).num_selectors < usize::MAX,
        ensures
            final(self).wf(),
            r == (Selector { index: old(self).num_selectors, complex: true }),
            final(self).num_advice == old(self).num_advice,
            final(self).num_instance == old(self).num_instance,
            final(self).num_fixed == old(self).num_fixed,
            final(self).num_selectors == old(self).num_selectors + 1,
            final(self).equality@ == old(self).equality@,
            final(self).gates@ == old(self).gates@,
            final(self).lookups@ == old(self).lookups@,
    {
        self.fresh_selector(true)
    }

    /// Growing the counts keeps every registration well formed.
    proof fn lemma_wf_grows(&self, o: ConstraintSystem)
        requires
            o.wf(),
            self.num_advice >= o.num_advice,
            self.num_instance >= o.num_instance,
            self.num_fixed >= o.num_fixed,
            self.num_selectors >= o.num_selectors,
            self.equality@ == o.equality@ || forall|c: Column|
                #[trigger] self.equality@.contains(c) ==> self.column_declared(c),
            self.gates@ == o.gates@,
            self.lookups@ == o.lookups@,
        ensures
            self.wf(),
    {
        assert forall|e: Expr| o.expr_declared(e) implies self.expr_declared(e) by {
            self.lemma_declared_grows(o, e);
        }
        assert forall|i: int| 0 <= i < self.gates@.len() implies #[trigger] self.gate_wf(
            self.gates@[i],
        ) by {
            assert(o.gate_wf(o.gates@[i]));
            let g = self.gates@[i];
            assert forall|j: int| 0 <= j < g.constraints@.len() implies #[trigger] self.expr_declared(
                g.constraints@[j].poly,
            ) by {
                assert(o.expr_declared(g.constraints@[j].poly));
            }
        }
        assert forall|i: int| 0 <= i < self.lookups@.len() implies #[trigger] self.lookup_wf(
            self.lookups@[i],
        ) by {
            assert(o.lookup_wf(o.lookups@[i]));
            self.lemma_declared_grows(o, self.lookups@[i].input);
        }
        assert forall|c: Column| #[trigger] self.equality@.contains(c) implies self.column_declared(c) by {
            if self.equality@ == o.equality@ {
                assert(o.equality@.contains(c));
            }
        }
    }

    /// What was declared stays declared as the counts grow.
    pub proof fn lemma_declared_grows(&self, o: ConstraintSystem, e: Expr)
        requires
            self.num_advice >= o.num_advice,
            self.num_instance >= o.num_instance,
            self.num_fixed >= o.num_fixed,
            self.num_selectors >= o.num_selectors,
            o.expr_declared(e),
        ensures
            self.expr_declared(e),
        decreases e,
    {
        match e {
            Expr::Neg(a) => self.lemma_declared_grows(o, *a),
            Expr::Sum(a, b) => {
                self.lemma_declared_grows(o, *a);
                self.lemma_declared_grows(o, *b);
            },
            Expr::Product(a, b) => {
                self.lemma_declared_grows(o, *a);
                self.lemma_declared_grows(o, *b);
            },
            _ => {},
        }
    }
}

impl ConstraintSystem {
    /// Whether `c` is a declared column.
    pub fn has_column(&self, c: Column) -> (r: bool)
        ensures
            r == self.column_declared(c),
    {
        match c.kind {
            ColumnKind::Advice => c.index < self.num_advice,
            ColumnKind::Instance => c.index < self.num_instance,
            ColumnKind::Fixed => c.index < self.num_fixed,
        }
    }

    /// Whether copy constraints are allowed on `c`.
    pub fn has_equality(&self, c: Column) -> (r: bool)
        ensures
            r == self.equality_enabled(c),
    {
        contains_column(&self.equality, c)
    }

    /// Marks `c` as eligible for copy constraints. Enabling it twice changes nothing.
    pub fn enable_equality(&mut self, c: Column) -> (r: Result<(), Error>)
        requires
            old(self).wf(),
        ensures
            final(self).wf(),
            r is Err <==> !old(self).column_declared(c),
            r is Err ==> final(self).same_registry(old(self)),
            r is Ok && old(self).equality_enabled(c) ==> final(self).same_registry(old(self)),
            final(self).num_advice == old(self).num_advice,
            final(self).num_instance == old(self).num_instance,
            final(self).num_fixed == old(self).num_fixed,
            final(self).num_selectors == old(self).num_selectors,
            final(self).gates@ == old(self).gates@,
            final(self).lookups@ == old(self).lookups@,
            forall|d: Column| #[trigger] final(self).equality_enabled(d) <==> (old(self).equality_enabled(d) || (r is Ok && d == c)),
    {
        if !self.has_column(c) {
            return Err(Error::UndeclaredReference);
        }
        if self.has_equality(c) {
            return Ok(());
        }
        self.equality.push(c);
        proof {
            assert(self.equality@ == old(self).equality@.push(c));
            assert forall|d: Column| #[trigger] self.equality@.contains(d) implies self.column_declared(d) by {
                if d != c {
                    let k = choose|k: int| 0 <= k < self.equality@.len() && self.equality@[k] == d;
                    assert(old(self).equality@[k] == d);
                    assert(old(self).equality@.contains(d));
                }
            }
            self.lemma_wf_grows(*old(self));
            assert forall|d: Column| #[trigger] self.equality_enabled(d) <==> (old(self).equality_enabled(d) || d == c) by {
                if old(self).equality_enabled(d) {
                    let k = choose|k: int| 0 <= k < old(self).equality@.len() && old(self).equality@[k] == d;
                    assert(self.equality@[k] == d);
                }
                if d == c {
                    assert(self.equality@[self.equality@.len() - 1] == d);
                }
            }
        }
        Ok(())
    }

    /// Whether everything `e` names is declared and its constants canonical.
    pub fn check_expr(&self, e: &Expr) -> (r: bool)
        ensures
            r == self.expr_declared(*e),
        decreases e,
    {
        match e {
            Expr::Constant(f) => f.is_canonical(),
            Expr::Query(c, _) => self.has_column(*c),
            Expr::Select(s) => s.index < self.num_selectors,
            Expr::Neg(a) => self.check_expr(a),
            Expr::Sum(a, b) => self.check_expr(a) && self.check_expr(b),
            Expr::Product(a, b) => self.check_expr(a) && self.check_expr(b),
        }
    }

    /// Registers a constraint set. Refused, and nothing registered, when the selector or
    /// a polynomial names something undeclared.
    pub fn create_gate(
        &mut self,
        name: String,
        selector: Selector,
        constraints: Vec<Constraint>,
    ) -> (r: Result<(), Error>)
        requires
            old(self).wf(),
        ensures
            final(self).wf(),
            r is Ok <==> old(self).gate_wf(Gate { name, selector, constraints }),
            r is Err ==> final(self).same_registry(old(self)),
            r is Ok ==> final(self).gates@ == old(self).gates@.push(Gate { name, selector, constraints }),
            final(self).num_advice == old(self).num_advice,
            final(self).num_instance == old(self).num_instance,
            final(self).num_fixed == old(self).num_fixed,
            final(self).num_selectors == old(self).num_selectors,
            final(self).equality@ == old(self).equality@,
            final(self).lookups@ == old(self).lookups@,
    {
        if selector.index >= self.num_selectors {
            return Err(Error::UndeclaredReference);
        }
        let mut i: usize = 0;
        while i < constraints.len()
            invariant
                0 <= i <= constraints@.len(),
                forall|j: int| 0 <= j < i ==> #[trigger] self.expr_declared(constraints@[j].poly),
                self.wf(),
                *self == *old(self),
            decreases constraints@.len() - i,
        {
            if !self.check_expr(&constraints[i].poly) {
                return Err(Error::UndeclaredReference);
            }
            i = i + 1;
        }
        let g = Gate { name, selector, constraints };
        assert(self.gate_wf(g));
        self.gates.push(g);
        proof {
            let pre = *old(self);
            assert forall|k: int| 0 <= k < self.gates@.len() implies #[trigger] self.gate_wf(self.gates@[k]) by {
                let gk = self.gates@[k];
                if k < old(self).gates@.len() {
                    assert(pre.gate_wf(pre.gates@[k]));
                }
                assert(pre.gate_wf(gk));
                assert forall|j: int| 0 <= j < gk.constraints@.len() implies #[trigger] self.expr_declared(gk.constraints@[j].poly) by {
                    assert(pre.expr_declared(gk.constraints@[j].poly));
                    self.lemma_declared_grows(pre, gk.constraints@[j].poly);
                }
            }
            assert forall|d: Column| #[trigger] self.equality@.contains(d) implies self.column_declared(d) by {
                assert(pre.equality@.contains(d));
            }
            assert forall|k: int| 0 <= k < self.lookups@.len() implies #[trigger] self.lookup_wf(self.lookups@[k]) by {
                assert(pre.lookup_wf(pre.lookups@[k]));
                self.lemma_declared_grows(pre, self.lookups@[k].input);
            }
        }
        Ok(())
    }

    /// Registers a lookup of `input` into the fixed column that `table`
    /// queries at the current row. Refused, and nothing registered, when
    /// `table` is anything else or a reference is undeclared.
    pub fn lookup(
        &mut self,
        name: String,
        selector: Option<Selector>,
        input: Expr,
        table: Expr,
    ) -> (r: Result<(), Error>)
        requires
            old(self).wf(),
        ensures
            final(self).wf(),
            r is Err ==> final(self).same_registry(old(self)),
            r matches Err(Error::InvalidLookupTable) <==> !(table matches Expr::Query(c, 0) && c.kind == ColumnKind::Fixed),
            r is Ok <==> (table matches Expr::Query(c, 0) && old(self).lookup_wf(Lookup { name, selector, input, table: c })),
            r is Ok ==> (table matches Expr::Query(c, 0) && final(self).lookups@ == old(self).lookups@.push(Lookup { name, selector, input, table: c })),
            final(self).num_advice == old(self).num_advice,
            final(self).num_instance == old(self).num_instance,
            final(self).num_fixed == old(self).num_fixed,
            final(self).num_selectors == old(self).num_selectors,
            final(self).equality@ == old(self).equality@,
            final(self).gates@ == old(self).gates@,
    {
        let c = match table {
            Expr::Query(c, rot) => {
                if rot != 0 || c.kind != ColumnKind::Fixed {
                    return Err(Error::InvalidLookupTable);
                }
                c
            },
            _ => {
                return Err(Error::InvalidLookupTable);
            },
        };
        if c.index >= self.num_fixed {
            return Err(Error::UndeclaredReference);
        }
        match selector {
            Some(s) => {
                if s.index >= self.num_selectors {
                    return Err(Error::UndeclaredReference);
                }
            },
            None => {},
        }
        if !self.check_expr(&input) {
            return Err(Error::UndeclaredReference);
        }
        let l = Lookup { name, selector, input, table: c };
        assert(self.lookup_wf(l));
        self.lookups.push(l);
        proof {
            let pre = *old(self);
            assert forall|k: int| 0 <= k < self.lookups@.len() implies #[trigger] self.lookup_wf(self.lookups@[k]) by {
                if k < pre.lookups@.len() {
                    assert(pre.lookup_wf(pre.lookups@[k]));
                }
                assert(pre.lookup_wf(self.lookups@[k]));
                self.lemma_declared_grows(pre, self.lookups@[k].input);
            }
            assert forall|d: Column| #[trigger] self.equality@.contains(d) implies self.column_declared(d) by {
                assert(pre.equality@.contains(d));
            }
            assert forall|i: int| 0 <= i < self.gates@.len() implies #[trigger] self.gate_wf(self.gates@[i]) by {
                assert(pre.gate_wf(pre.gates@[i]));
                let g = self.gates@[i];
                assert forall|j: int| 0 <= j < g.constraints@.len() implies #[trigger] self.expr_declared(g.constraints@[j].poly) by {
                    assert(pre.expr_declared(g.constraints@[j].poly));
                    self.lemma_declared_grows(pre, g.constraints@[j].poly);
                }
            }
        }
        Ok(())
    }
}

} // verus!
