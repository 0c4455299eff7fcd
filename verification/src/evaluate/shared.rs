use std::collections::HashMap;
use std::collections::VecDeque;

use vstd::prelude::*;

verus! {

/// A de Bruijn level: the position of a variable in its environment.
#[derive(Copy, Clone, Debug, Eq, PartialEq, Ord, PartialOrd, Hash, Structural)]
pub struct VL(pub usize);

/// An entry of an environment: a table with its schema, or a value with its type.
#[derive(Debug)]
pub enum Entry {
    Table(VL, Schema),
    Value(VL, DataType),
}

impl Entry {
    /// The variable that this entry binds.
    pub open spec fn bound_var(self) -> VL {
        match self {
            Entry::Table(l, _) => l,
            Entry::Value(l, _) => l,
        }
    }

    pub fn new_value(data: VL, ty: DataType) -> (e: Entry)
        ensures
            e == Entry::Value(data, ty),
    {
        Entry::Value(data, ty)
    }

    pub fn new_table(data: VL, schema: Schema) -> (e: Entry)
        ensures
            e == Entry::Table(data, schema),
    {
        Entry::Table(data, schema)
    }

    pub fn var(&self) -> (l: VL)
        ensures
            l == self.bound_var(),
    {
        match self {
            Entry::Table(l, _) => *l,
            Entry::Value(l, _) => *l,
        }
    }
}

impl View for Entry {
    type V = EntryView;

    open spec fn view(&self) -> EntryView {
        match self {
            Entry::Table(l, schema) => EntryView::Table(*l, schema@),
            Entry::Value(l, ty) => EntryView::Value(*l, *ty),
        }
    }
}

/// What an entry holds, with its schema taken by its view.
pub enum EntryView {
    Table(VL, (Seq<String>, Option<usize>, Map<usize, VL>)),
    Value(VL, DataType),
}

impl Clone for Entry {
    fn clone(&self) -> (r: Entry)
        ensures
            r@ == self@,
    {
        match self {
            Entry::Table(l, schema) => Entry::Table(*l, schema.clone()),
            Entry::Value(l, ty) => Entry::Value(*l, ty.clone()),
        }
    }
}

/// A scalar expression: a variable, or an operator applied to arguments.
#[derive(Debug, Eq, PartialEq, Ord, PartialOrd, Hash)]
pub enum Expr {
    Var(VL),
    Op(String, Vec<Expr>),
}

/// The mathematical value of an expression: the operator names as character
/// sequences and the arguments as sequences.
pub enum ExprModel {
    Var(VL),
    Op(Seq<char>, Seq<ExprModel>),
}

impl Expr {
    pub open spec fn model(self) -> ExprModel
        decreases self,
    {
        match self {
            Expr::Var(l) => ExprModel::Var(l),
            Expr::Op(f, args) => ExprModel::Op(f@, models_of(args@)),
        }
    }
}

/// The models of a sequence of expressions, element by element.
pub open spec fn models_of(es: Seq<Expr>) -> Seq<ExprModel>
    decreases es,
{
    if es.len() == 0 {
        Seq::empty()
    } else {
        seq![es[0].model()] + models_of(es.drop_first())
    }
}

impl ExprModel {
    /// Every variable of the expression is a level below `n`.
    pub open spec fn within(self, n: nat) -> bool
        decreases self,
    {
        match self {
            ExprModel::Var(l) => l.0 < n,
            ExprModel::Op(_, args) => forall|i: int|
                0 <= i < args.len() ==> (#[trigger] args[i]).within(n),
        }
    }

    /// The expression with every variable `l` replaced by `f(l)`.
    pub open spec fn rename(self, f: spec_fn(VL) -> VL) -> ExprModel
        decreases self,
    {
        match self {
            ExprModel::Var(l) => ExprModel::Var(f(l)),
            ExprModel::Op(g, args) => ExprModel::Op(
                g,
                Seq::new(
                    args.len(),
                    |i: int|
                        if 0 <= i < args.len() {
                            args[i].rename(f)
                        } else {
                            ExprModel::Var(VL(0))
                        },
                ),
            ),
        }
    }
}

impl ExprModel {
    /// The value of the expression when every variable `l` has the value
    /// `val(l)` and every operator `g` applied to the values `vs` gives
    /// `op(g, vs)`.
    pub open spec fn value(self, val: spec_fn(VL) -> int, op: spec_fn(Seq<char>, Seq<int>) -> int) -> int
        decreases self,
    {
        match self {
            ExprModel::Var(l) => val(l),
            ExprModel::Op(g, args) => op(g, values_of(args, val, op)),
        }
    }
}

/// The values of a list of expressions, element by element.
pub open spec fn values_of(
    args: Seq<ExprModel>,
    val: spec_fn(VL) -> int,
    op: spec_fn(Seq<char>, Seq<int>) -> int,
) -> Seq<int>
    decreases args,
{
    Seq::new(
        args.len(),
        |i: int|
            if 0 <= i < args.len() {
                args[i].value(val, op)
            } else {
                0
            },
    )
}

/// Substitution: the value of a renamed expression is the value of the
/// expression with every variable `l` given the value of `f(l)`.
pub proof fn lemma_rename_value(
    e: ExprModel,
    f: spec_fn(VL) -> VL,
    val: spec_fn(VL) -> int,
    pulled: spec_fn(VL) -> int,
    op: spec_fn(Seq<char>, Seq<int>) -> int,
)
    requires
        forall|l: VL| #[trigger] pulled(l) == val(f(l)),
    ensures
        e.rename(f).value(val, op) == e.value(pulled, op),
    decreases e,
{
    match e {
        ExprModel::Var(l) => {},
        ExprModel::Op(g, args) => {
            let rs = e.rename(f)->1;
            assert forall|i: int| 0 <= i < args.len() implies (#[trigger] args[i]).rename(f).value(val, op)
                == args[i].value(pulled, op) by {
                lemma_rename_value(args[i], f, val, pulled, op);
            }
            assert(values_of(rs, val, op) =~= values_of(args, pulled, op));
        },
    }
}

/// Renaming with a function that fixes every variable of `e` leaves `e` as it is.
pub proof fn lemma_rename_fixed(e: ExprModel, f: spec_fn(VL) -> VL, n: nat)
    requires
        e.within(n),
        forall|l: VL| l.0 < n ==> #[trigger] f(l) == l,
    ensures
        e.rename(f) == e,
    decreases e,
{
    match e {
        ExprModel::Var(l) => {},
        ExprModel::Op(g, args) => {
            assert forall|i: int| 0 <= i < args.len() implies (#[trigger] args[i]).rename(f) == args[i] by {
                lemma_rename_fixed(args[i], f, n);
            }
            assert(e.rename(f)->1 =~= args);
        },
    }
}

/// Renaming with `f` and then with `g` is renaming with their composition,
/// and the result stays within `m` variables when `f` sends the first `n`
/// variables below `m`.
pub proof fn lemma_rename_compose(
    e: ExprModel,
    f: spec_fn(VL) -> VL,
    g: spec_fn(VL) -> VL,
    n: nat,
    m: nat,
)
    requires
        e.within(n),
        forall|l: VL| l.0 < n ==> (#[trigger] f(l)).0 < m,
    ensures
        e.rename(f).within(m),
        e.rename(f).rename(g) == e.rename(|l: VL| g(f(l))),
    decreases e,
{
    match e {
        ExprModel::Var(l) => {},
        ExprModel::Op(h, args) => {
            let fg = |l: VL| g(f(l));
            assert forall|i: int| 0 <= i < args.len() implies (#[trigger] args[i]).rename(f).within(m)
                && args[i].rename(f).rename(g) == args[i].rename(fg) by {
                lemma_rename_compose(args[i], f, g, n, m);
            }
            let once = e.rename(f);
            assert(once->1.len() == args.len());
            assert forall|i: int| 0 <= i < once->1.len() implies (#[trigger] once->1[i]).within(m) by {
                assert(once->1[i] == args[i].rename(f));
            }
            assert(once.rename(g)->1 =~= e.rename(fg)->1);
        },
    }
}

/// `models_of` keeps the length and maps every element to its model.
pub proof fn lemma_models_of(es: Seq<Expr>)
    ensures
        models_of(es).len() == es.len(),
        forall|i: int| 0 <= i < es.len() ==> #[trigger] models_of(es)[i] == es[i].model(),
    decreases es.len(),
{
    if es.len() > 0 {
        lemma_models_of(es.drop_first());
        assert forall|i: int| 0 <= i < es.len() implies #[trigger] models_of(es)[i]
            == es[i].model() by {
            if i > 0 {
                assert(es.drop_first()[i - 1] == es[i]);
            }
        }
    }
}

/// Two sequences of expressions with pointwise equal models have equal models.
pub proof fn lemma_models_of_eq(a: Seq<Expr>, b: Seq<Expr>)
    requires
        a.len() == b.len(),
        forall|i: int| 0 <= i < a.len() ==> #[trigger] a[i].model() == b[i].model(),
    ensures
        models_of(a) == models_of(b),
{
    lemma_models_of(a);
    lemma_models_of(b);
    assert(models_of(a) =~= models_of(b));
}

impl Expr {
    /// A copy of this expression, with the same model.
    pub fn duplicate(&self) -> (r: Expr)
        ensures
            r.model() == self.model(),
        decreases self,
    {
        match self {
            Expr::Var(l) => Expr::Var(*l),
            Expr::Op(f, args) => {
                let mut out: Vec<Expr> = Vec::new();
                let mut i: usize = 0;
                while i < args.len()
                    invariant
                        *self == Expr::Op(*f, *args),
                        i <= args.len(),
                        out@.len() == i,
                        forall|j: int| 0 <= j < i ==> #[trigger] out@[j].model() == args@[j].model(),
                    decreases args.len() - i,
                {
                    proof {
                        broadcast use vstd::std_specs::vec::axiom_vec_index_decreases;

                        assert(decreases_to!(*self => self->1));
                        assert(decreases_to!(args => args[i as int]));
                        assert(decreases_to!(*self => args[i as int]));
                    }
                    let a = args[i].duplicate();
                    out.push(a);
                    i = i + 1;
                }
                proof {
                    lemma_models_of_eq(out@, args@);
                }
                Expr::Op(f.clone(), out)
            },
        }
    }
}

impl Clone for Expr {
    fn clone(&self) -> (r: Expr)
        ensures
            r.model() == self.model(),
    {
        self.duplicate()
    }
}

/// An atomic predicate over scalar expressions.
#[derive(Debug, Eq, PartialEq, Ord, PartialOrd, Hash)]
pub enum Predicate {
    Eq(Expr, Expr),
    Pred(String, Vec<Expr>),
    Like(Expr, String),
}

/// The mathematical value of a predicate.
pub enum PredicateModel {
    Eq(ExprModel, ExprModel),
    Pred(Seq<char>, Seq<ExprModel>),
    Like(ExprModel, Seq<char>),
}

impl Predicate {
    pub open spec fn model(self) -> PredicateModel {
        match self {
            Predicate::Eq(v1, v2) => PredicateModel::Eq(v1.model(), v2.model()),
            Predicate::Pred(r, args) => PredicateModel::Pred(r@, models_of(args@)),
            Predicate::Like(v, s) => PredicateModel::Like(v.model(), s@),
        }
    }
}

impl Clone for Predicate {
    fn clone(&self) -> (r: Predicate)
        ensures
            r.model() == self.model(),
    {
        match self {
            Predicate::Eq(v1, v2) => Predicate::Eq(v1.duplicate(), v2.duplicate()),
            Predicate::Pred(r, args) => {
                let mut out: Vec<Expr> = Vec::new();
                let mut i: usize = 0;
                while i < args.len()
                    invariant
                        i <= args.len(),
                        out@.len() == i,
                        forall|j: int| 0 <= j < i ==> #[trigger] out@[j].model() == args@[j].model(),
                    decreases args.len() - i,
                {
                    out.push(args[i].duplicate());
                    i = i + 1;
                }
                proof {
                    lemma_models_of_eq(out@, args@);
                }
                Predicate::Pred(r.clone(), out)
            },
            Predicate::Like(v, s) => Predicate::Like(v.duplicate(), s.clone()),
        }
    }
}

impl PredicateModel {
    /// Whether the predicate holds when every variable `l` has the value
    /// `val(l)`, operators are interpreted by `op`, named predicates by `rel`
    /// and pattern matching by `like`.
    pub open spec fn holds(
        self,
        val: spec_fn(VL) -> int,
        op: spec_fn(Seq<char>, Seq<int>) -> int,
        rel: spec_fn(Seq<char>, Seq<int>) -> bool,
        like: spec_fn(int, Seq<char>) -> bool,
    ) -> bool {
        match self {
            PredicateModel::Eq(v1, v2) => v1.value(val, op) == v2.value(val, op),
            PredicateModel::Pred(r, args) => rel(r, values_of(args, val, op)),
            PredicateModel::Like(v, s) => like(v.value(val, op), s),
        }
    }
}

/// Substitution for predicates: a renamed predicate holds exactly when the
/// predicate holds with every variable `l` given the value of `f(l)`.
pub proof fn lemma_rename_holds(
    p: PredicateModel,
    f: spec_fn(VL) -> VL,
    val: spec_fn(VL) -> int,
    pulled: spec_fn(VL) -> int,
    op: spec_fn(Seq<char>, Seq<int>) -> int,
    rel: spec_fn(Seq<char>, Seq<int>) -> bool,
    like: spec_fn(int, Seq<char>) -> bool,
)
    requires
        forall|l: VL| #[trigger] pulled(l) == val(f(l)),
    ensures
        p.rename(f).holds(val, op, rel, like) == p.holds(pulled, op, rel, like),
{
    match p {
        PredicateModel::Eq(v1, v2) => {
            lemma_rename_value(v1, f, val, pulled, op);
            lemma_rename_value(v2, f, val, pulled, op);
        },
        PredicateModel::Pred(r, args) => {
            let rs = p.rename(f)->Pred_1;
            assert forall|i: int| 0 <= i < args.len() implies (#[trigger] args[i]).rename(f).value(val, op)
                == args[i].value(pulled, op) by {
                lemma_rename_value(args[i], f, val, pulled, op);
            }
            assert(values_of(rs, val, op) =~= values_of(args, pulled, op));
        },
        PredicateModel::Like(v, s) => {
            lemma_rename_value(v, f, val, pulled, op);
        },
    }
}

impl PredicateModel {
    /// Every variable of the predicate is a level below `n`.
    pub open spec fn within(self, n: nat) -> bool {
        match self {
            PredicateModel::Eq(v1, v2) => v1.within(n) && v2.within(n),
            PredicateModel::Pred(_, args) => forall|i: int|
                0 <= i < args.len() ==> (#[trigger] args[i]).within(n),
            PredicateModel::Like(v, _) => v.within(n),
        }
    }

    /// The predicate with every variable `l` replaced by `f(l)`.
    pub open spec fn rename(self, f: spec_fn(VL) -> VL) -> PredicateModel {
        match self {
            PredicateModel::Eq(v1, v2) => PredicateModel::Eq(v1.rename(f), v2.rename(f)),
            PredicateModel::Pred(r, args) => PredicateModel::Pred(
                r,
                Seq::new(args.len(), |i: int| args[i].rename(f)),
            ),
            PredicateModel::Like(v, s) => PredicateModel::Like(v.rename(f), s),
        }
    }
}

/// The schema of a table: column types, an optional primary key column,
/// and foreign keys from columns to tables.
#[derive(Debug, Default)]
pub struct Schema {
    pub types: Vec<String>,
    pub primary: Option<usize>,
    pub foreign: HashMap<usize, VL>,
}

impl View for Schema {
    type V = (Seq<String>, Option<usize>, Map<usize, VL>);

    open spec fn view(&self) -> (Seq<String>, Option<usize>, Map<usize, VL>) {
        (self.types@, self.primary, self.foreign@)
    }
}

impl Clone for Schema {
    fn clone(&self) -> (r: Schema)
        ensures
            r@ == self@,
    {
        let types = self.types.clone();
        proof {
            assert(types@ =~= self.types@);
        }
        Schema { types, primary: self.primary, foreign: self.foreign.clone() }
    }
}

impl Env<Entry> {
    /// The variable bound at `level`.
    pub open spec fn var_at(self, level: VL) -> VL {
        self@[level.0 as int].bound_var()
    }

    pub fn get_var(&self, level: VL) -> (l: VL)
        requires
            level.0 < self@.len(),
        ensures
            l == self.var_at(level),
    {
        self.get(level).var()
    }

    pub fn get_schema(&self, level: VL) -> (schema: &Schema)
        requires
            level.0 < self@.len(),
            self@[level.0 as int] is Table,
        ensures
            self@[level.0 as int] == Entry::Table(self.var_at(level), *schema),
    {
        if let Entry::Table(_, schema) = self.get(level) {
            schema
        } else {
            let missing: Option<&Schema> = None;
            missing.unwrap()
        }
    }

    pub fn get_type(&self, level: VL) -> (ty: &DataType)
        requires
            level.0 < self@.len(),
            self@[level.0 as int] is Value,
        ensures
            self@[level.0 as int] == Entry::Value(self.var_at(level), *ty),
    {
        if let Entry::Value(_, ty) = self.get(level) {
            ty
        } else {
            let missing: Option<&DataType> = None;
            missing.unwrap()
        }
    }

    pub fn eval_args(&self, args: Vec<VL>) -> (vars: Vec<VL>)
        requires
            forall|i: int| 0 <= i < args@.len() ==> (#[trigger] args@[i]).0 < self@.len(),
        ensures
            vars@ == args@.map_values(|a: VL| self.var_at(a)),
    {
        let mut vars: Vec<VL> = Vec::new();
        for a in it: args
            invariant
                it.seq() == args@,
                forall|i: int| 0 <= i < args@.len() ==> (#[trigger] args@[i]).0 < self@.len(),
                vars@ == args@.take(it.index() as int).map_values(|a: VL| self.var_at(a)),
        {
            proof {
                assert(args@[it.index() as int] == a);
            }
            vars.push(self.get_var(a));
            proof {
                assert(args@.take(it.index() + 1) =~= args@.take(it.index() as int).push(a));
                assert(vars@ =~= args@.take(it.index() + 1).map_values(|a: VL| self.var_at(a)));
            }
        }
        proof {
            assert(args@.take(args@.len() as int) =~= args@);
        }
        vars
    }

    /// The renaming that this environment applies to the variables of an expression.
    pub open spec fn renaming(self) -> spec_fn(VL) -> VL {
        |l: VL| self.var_at(l)
    }

    #[verifier::loop_isolation(false)]
    pub fn eval_expr(&self, value: Expr) -> (r: Expr)
        requires
            value.model().within(self@.len()),
        ensures
            r.model() == value.model().rename(self.renaming()),
        decreases value,
    {
        let ghost whole = value;
        match value {
            Expr::Var(l) => Expr::Var(self.get_var(l)),
            Expr::Op(f, args) => {
                let ghost orig = args;
                proof {
                    lemma_models_of(args@);
                }
                let mut out: Vec<Expr> = Vec::new();
                for a in it: args
                    invariant
                        it.seq() == orig@,
                        whole == Expr::Op(f, orig),
                        whole.model().within(self@.len()),
                        models_of(orig@).len() == orig@.len(),
                        forall|i: int| 0 <= i < orig@.len() ==> #[trigger] models_of(orig@)[i] == orig@[i].model(),
                        out@.len() == it.index(),
                        forall|j: int| 0 <= j < it.index() ==> #[trigger] out@[j].model()
                            == orig@[j].model().rename(self.renaming()),
                {
                    let ghost k = it.index() as int;
                    proof {
                        broadcast use vstd::std_specs::vec::axiom_vec_index_decreases;

                        assert(orig@[k] == a);
                        assert(decreases_to!(whole => whole->1));
                        assert(decreases_to!(orig => orig[k]));
                        assert(models_of(orig@)[k] == a.model());
                        assert(whole.model() == ExprModel::Op(f@, models_of(orig@)));
                        assert(models_of(orig@)[k].within(self@.len()));
                    }
                    let r = self.eval_expr(a);
                    out.push(r);
                }
                proof {
                    lemma_models_of(out@);
                }
                let ghost rn = self.renaming();
                let ghost ms = models_of(orig@);
                let ghost renamed = Seq::new(
                    ms.len(),
                    |i: int|
                        if 0 <= i < ms.len() {
                            ms[i].rename(rn)
                        } else {
                            ExprModel::Var(VL(0))
                        },
                );
                proof {
                    assert(models_of(out@) =~= renamed);
                    let lhs = whole.model().rename(rn);
                    assert(lhs->1 =~= renamed);
                    assert(lhs == ExprModel::Op(f@, renamed));
                }
                let r = Expr::Op(f, out);
                proof {
                    assert(r.model() == whole.model().rename(rn));
                }
                r
            },
        }
    }

    pub fn eval_pred(&self, pred: Predicate) -> (r: Predicate)
        requires
            pred.model().within(self@.len()),
        ensures
            r.model() == pred.model().rename(self.renaming()),
    {
        match pred {
            Predicate::Eq(v1, v2) => Predicate::Eq(self.eval_expr(v1), self.eval_expr(v2)),
            Predicate::Pred(r, args) => {
                let ghost orig = args;
                proof {
                    lemma_models_of(args@);
                }
                let mut out: Vec<Expr> = Vec::new();
                for a in it: args
                    invariant
                        it.seq() == orig@,
                        models_of(orig@).len() == orig@.len(),
                        forall|i: int| 0 <= i < orig@.len() ==> #[trigger] models_of(orig@)[i] == orig@[i].model(),
                        forall|i: int| 0 <= i < orig@.len() ==> (#[trigger] models_of(orig@)[i]).within(self@.len()),
                        out@.len() == it.index(),
                        forall|j: int| 0 <= j < it.index() ==> #[trigger] out@[j].model()
                            == orig@[j].model().rename(self.renaming()),
                {
                    proof {
                        assert(orig@[it.index() as int] == a);
                        assert(models_of(orig@)[it.index() as int].within(self@.len()));
                    }
                    out.push(self.eval_expr(a));
                }
                proof {
                    lemma_models_of(out@);
                    let ms = models_of(orig@);
                    assert(models_of(out@) =~= Seq::new(ms.len(), |i: int| ms[i].rename(self.renaming())));
                }
                Predicate::Pred(r, out)
            },
            Predicate::Like(v, s) => Predicate::Like(self.eval_expr(v), s),
        }
    }

    pub fn eval_sch(&self, schema: Schema) -> (r: Schema)
        requires
            forall|c: usize| #[trigger] schema.foreign@.contains_key(c) ==> schema.foreign@[c].0 < self@.len(),
        ensures
            r.types == schema.types,
            r.primary == schema.primary,
            r.foreign@ == schema.foreign@.map_values(self.renaming()),
    {
        broadcast use vstd::std_specs::hash::group_hash_axioms;

        let Schema { types, primary, foreign } = schema;
        let mut renamed: HashMap<usize, VL> = HashMap::new();
        for pair in it: foreign.iter()
            invariant
                forall|c: usize| #[trigger] foreign@.contains_key(c) ==> foreign@[c].0 < self@.len(),
                forall|c: usize| #[trigger] renamed@.contains_key(c) ==> foreign@.contains_key(c)
                    && renamed@[c] == self.var_at(foreign@[c]),
                forall|j: int| 0 <= j < it.index() ==> renamed@.contains_key(*(#[trigger] it.seq()[j]).0),
                forall|j: int| 0 <= j < it.seq().len() ==> foreign@.contains_key(*(#[trigger] it.seq()[j]).0)
                    && foreign@[*it.seq()[j].0] == *it.seq()[j].1,
                forall|c: usize| #[trigger] foreign@.contains_key(c) ==> it.seq().contains((&c, &foreign@[c])),
                it.index() == it.seq().len() ==> forall|c: usize| #[trigger] foreign@.contains_key(c)
                    ==> renamed@.contains_key(c),
        {
            let (col, t) = pair;
            proof {
                assert(it.seq()[it.index() as int] == pair);
            }
            renamed.insert(*col, self.get_var(*t));
        }
        proof {
            assert(renamed@ =~= foreign@.map_values(self.renaming()));
        }
        Schema { types, primary, foreign: renamed }
    }
}

/// Reading after a write: once `entry` is introduced into an environment of
/// size `n`, level `n` holds `entry`, the size grows by one, and every lower
/// level holds what it held before.
pub proof fn law_get_after_introduce<E>(before: Env<E>, after: Env<E>, entry: E)
    requires
        after@ == before@.push(entry),
    ensures
        after@.len() == before@.len() + 1,
        after@[before@.len() as int] == entry,
        forall|i: int| 0 <= i < before@.len() ==> after@[i] == before@[i],
{
}

/// Reading after extending: the entries follow the old ones in order, and the
/// old levels are unchanged.
pub proof fn law_get_after_extend<E>(before: Env<E>, after: Env<E>, entries: Seq<E>)
    requires
        after@ == before@ + entries,
    ensures
        after@.len() == before@.len() + entries.len(),
        forall|i: int| 0 <= i < entries.len() ==> after@[before@.len() + i] == entries[i],
        forall|i: int| 0 <= i < before@.len() ==> after@[i] == before@[i],
{
}

/// Evaluating a list of levels looks up each level as `get_var` does.
pub proof fn law_eval_args_pointwise(env: Env<Entry>, args: Seq<VL>, vars: Seq<VL>)
    requires
        vars == args.map_values(|a: VL| env.var_at(a)),
    ensures
        vars.len() == args.len(),
        forall|i: int| 0 <= i < args.len() ==> vars[i] == env.var_at(args[i]),
{
}

/// Evaluating an expression in an environment that binds every level to
/// itself leaves the expression as it is.
pub proof fn law_eval_identity(env: Env<Entry>, e: Expr)
    requires
        e.model().within(env@.len()),
        forall|l: VL| l.0 < env@.len() ==> #[trigger] env.var_at(l) == l,
    ensures
        e.model().rename(env.renaming()) == e.model(),
{
    lemma_rename_fixed(e.model(), env.renaming(), env@.len());
}

/// Evaluating an expression in an environment keeps its meaning: under any
/// values `val` of the variables and any interpretation `op` of the operators,
/// the evaluated expression has the value of the original expression with
/// every level given the value (`bound`) of the variable it is bound to.
pub proof fn law_eval_expr_value(
    env: Env<Entry>,
    e: Expr,
    val: spec_fn(VL) -> int,
    bound: spec_fn(VL) -> int,
    op: spec_fn(Seq<char>, Seq<int>) -> int,
)
    requires
        forall|l: VL| #[trigger] bound(l) == val(env.var_at(l)),
    ensures
        e.model().rename(env.renaming()).value(val, op) == e.model().value(bound, op),
{
    lemma_rename_value(e.model(), env.renaming(), val, bound, op);
}

/// Evaluating a predicate in an environment keeps its meaning: the evaluated
/// predicate holds under values `val` of the variables exactly when the
/// original predicate holds with every level given the value (`bound`) of the
/// variable it is bound to, whatever the interpretation of operators, named
/// predicates and pattern matching.
pub proof fn law_eval_pred_holds(
    env: Env<Entry>,
    p: Predicate,
    val: spec_fn(VL) -> int,
    bound: spec_fn(VL) -> int,
    op: spec_fn(Seq<char>, Seq<int>) -> int,
    rel: spec_fn(Seq<char>, Seq<int>) -> bool,
    like: spec_fn(int, Seq<char>) -> bool,
)
    requires
        forall|l: VL| #[trigger] bound(l) == val(env.var_at(l)),
    ensures
        p.model().rename(env.renaming()).holds(val, op, rel, like) == p.model().holds(bound, op, rel, like),
{
    lemma_rename_holds(p.model(), env.renaming(), val, bound, op, rel, like);
}

/// Renaming a named predicate keeps its name and its number of arguments,
/// and renames every argument as renaming that argument alone does.
pub proof fn law_rename_pred_arguments(r: Seq<char>, args: Seq<ExprModel>, f: spec_fn(VL) -> VL)
    ensures
        PredicateModel::Pred(r, args).rename(f) matches PredicateModel::Pred(r2, rs) && r2 == r
            && rs.len() == args.len() && forall|i: int| 0 <= i < args.len() ==> #[trigger] rs[i]
            == args[i].rename(f),
{
}

/// Evaluating in `env1` and then in `env2` is evaluating once with the lookup
/// of `env2` composed after that of `env1`; the first result lies within
/// `env2` whenever `env1` binds its levels to levels of `env2`.
pub proof fn law_eval_compose(env1: Env<Entry>, env2: Env<Entry>, e: Expr)
    requires
        e.model().within(env1@.len()),
        forall|l: VL| l.0 < env1@.len() ==> (#[trigger] env1.var_at(l)).0 < env2@.len(),
    ensures
        e.model().rename(env1.renaming()).within(env2@.len()),
        e.model().rename(env1.renaming()).rename(env2.renaming()) == e.model().rename(
            |l: VL| env2.var_at(env1.var_at(l)),
        ),
{
    lemma_rename_compose(e.model(), env1.renaming(), env2.renaming(), env1@.len(), env2@.len());
    let f = env1.renaming();
    let g = env2.renaming();
    assert((|l: VL| g(f(l))) =~= (|l: VL| env2.var_at(env1.var_at(l))));
}

/// SQL data types.
#[derive(Debug, PartialEq, Eq, PartialOrd, Ord, Hash)]
pub enum DataType {
    /// Fixed-length character type e.g. CHAR(10)
    Char(Option<u64>),
    /// Variable-length character type e.g. VARCHAR(10)
    Varchar(Option<u64>),
    /// Uuid type
    Uuid,
    /// Large character object e.g. CLOB(1000)
    Clob(u64),
    /// Fixed-length binary type e.g. BINARY(10)
    Binary(u64),
    /// Variable-length binary type e.g. VARBINARY(10)
    Varbinary(u64),
    /// Large binary object e.g. BLOB(1000)
    Blob(u64),
    /// Decimal type with optional precision and scale e.g. DECIMAL(10,2)
    Decimal(Option<u64>, Option<u64>),
    /// Floating point with optional precision e.g. FLOAT(8)
    Float(Option<u64>),
    /// Small integer
    SmallInt,
    /// Integer
    Int,
    /// Big integer
    BigInt,
    /// Floating point e.g. REAL
    Real,
    /// Double e.g. DOUBLE PRECISION
    Double,
    /// Boolean
    Boolean,
    /// Date
    Date,
    /// Time
    Time,
    /// Timestamp
    Timestamp,
    /// Interval
    Interval,
    /// Regclass used in postgresql serial
    Regclass,
    /// Text
    Text,
    /// String
    String,
    /// Bytea
    Bytea,
    /// Custom type such as enums
    Custom(String),
    /// Arrays
    Array(Box<DataType>),
    /// Any type
    Any,
}

impl DataType {
    /// A copy of this type, equal to it.
    pub fn duplicate(&self) -> (r: DataType)
        ensures
            r == *self,
        decreases self,
    {
        match self {
            DataType::Char(n) => DataType::Char(*n),
            DataType::Varchar(n) => DataType::Varchar(*n),
            DataType::Uuid => DataType::Uuid,
            DataType::Clob(n) => DataType::Clob(*n),
            DataType::Binary(n) => DataType::Binary(*n),
            DataType::Varbinary(n) => DataType::Varbinary(*n),
            DataType::Blob(n) => DataType::Blob(*n),
            DataType::Decimal(p, s) => DataType::Decimal(*p, *s),
            DataType::Float(n) => DataType::Float(*n),
            DataType::SmallInt => DataType::SmallInt,
            DataType::Int => DataType::Int,
            DataType::BigInt => DataType::BigInt,
            DataType::Real => DataType::Real,
            DataType::Double => DataType::Double,
            DataType::Boolean => DataType::Boolean,
            DataType::Date => DataType::Date,
            DataType::Time => DataType::Time,
            DataType::Timestamp => DataType::Timestamp,
            DataType::Interval => DataType::Interval,
            DataType::Regclass => DataType::Regclass,
            DataType::Text => DataType::Text,
            DataType::String => DataType::String,
            DataType::Bytea => DataType::Bytea,
            DataType::Custom(name) => DataType::Custom(name.clone()),
            DataType::Array(inner) => DataType::Array(Box::new(inner.duplicate())),
            DataType::Any => DataType::Any,
        }
    }
}

impl Clone for DataType {
    fn clone(&self) -> (r: DataType)
        ensures
            r == *self,
    {
        self.duplicate()
    }
}

/// The environment of some expression, which maps every variable that occurs
/// in the expression to some value.
#[derive(Debug, Default)]
pub struct Env<E> {
    pub entries: VecDeque<E>,
}

impl<E> View for Env<E> {
    type V = Seq<E>;

    open spec fn view(&self) -> Seq<E> {
        self.entries@
    }
}

impl<E> Env<E> {
    pub fn new(entries: Vec<E>) -> (env: Self)
        ensures
            env@ == entries@,
    {
        let mut deque: VecDeque<E> = VecDeque::new();
        for e in it: entries
            invariant
                deque@ == it.seq().take(it.index() as int),
        {
            deque.push_back(e);
        }
        Env { entries: deque }
    }

    pub fn size(&self) -> (n: usize)
        ensures
            n == self@.len(),
    {
        self.entries.len()
    }

    pub fn get(&self, level: VL) -> (e: &E)
        requires
            level.0 < self@.len(),
        ensures
            *e == self@[level.0 as int],
    {
        &self.entries[level.0]
    }

    pub fn introduce(&mut self, entry: E)
        ensures
            final(self)@ == old(self)@.push(entry),
    {
        self.entries.push_back(entry);
    }

    pub fn extend(&mut self, entries: Vec<E>)
        ensures
            final(self)@ == old(self)@ + entries@,
    {
        let ghost start = self@;
        for e in it: entries
            invariant
                self@ == start + it.seq().take(it.index() as int),
        {
            self.entries.push_back(e);
            proof {
                assert(it.seq().take(it.index() + 1) =~= it.seq().take(it.index() as int).push(e));
            }
        }
    }
}

impl<E: Clone> Env<E> {
    /// A new environment holding copies of these entries followed by `entries`.
    pub fn append(&self, entries: Vec<E>) -> (env: Env<E>)
        ensures
            env@.len() == self@.len() + entries@.len(),
            forall|i: int| 0 <= i < self@.len() ==> cloned(self@[i], #[trigger] env@[i]),
            env@.subrange(self@.len() as int, env@.len() as int) == entries@,
    {
        let mut env = self.clone();
        env.extend(entries);
        proof {
            assert(env@.subrange(self@.len() as int, env@.len() as int) =~= entries@);
        }
        env
    }
}

impl<E: Clone> Clone for Env<E> {
    /// An environment holding copies of the entries, in the same order.
    fn clone(&self) -> (r: Env<E>)
        ensures
            r@.len() == self@.len(),
            forall|i: int| 0 <= i < self@.len() ==> cloned(self@[i], #[trigger] r@[i]),
    {
        Env { entries: self.entries.clone() }
    }
}

/// `append` is the non-mutating form of `extend`: appending to an environment
/// gives what extending a copy of it gives. Both hold copies of the old
/// entries in the same order, followed by the same new entries.
pub proof fn law_append_is_clone_then_extend<E: Clone>(
    env: Env<E>,
    entries: Seq<E>,
    appended: Env<E>,
    copy: Env<E>,
    extended: Env<E>,
)
    requires
        appended@.len() == env@.len() + entries.len(),
        forall|i: int| 0 <= i < env@.len() ==> cloned(env@[i], #[trigger] appended@[i]),
        appended@.subrange(env@.len() as int, appended@.len() as int) == entries,
        copy@.len() == env@.len(),
        forall|i: int| 0 <= i < env@.len() ==> cloned(env@[i], #[trigger] copy@[i]),
        extended@ == copy@ + entries,
    ensures
        appended@.len() == extended@.len(),
        forall|i: int| 0 <= i < env@.len() ==> cloned(env@[i], #[trigger] appended@[i]) && cloned(env@[i], extended@[i]),
        forall|i: int| env@.len() <= i < appended@.len() ==> #[trigger] appended@[i] == extended@[i],
{
    assert forall|i: int| env@.len() <= i < appended@.len() implies #[trigger] appended@[i] == extended@[i] by {
        assert(appended@.subrange(env@.len() as int, appended@.len() as int)[i - env@.len()] == appended@[i]);
    }
}

/// For environments of entries, whose copies are equal to the originals, `append`
/// and a copy followed by `extend` hold the same entries.
pub proof fn law_append_is_clone_then_extend_entries(
    env: Env<Entry>,
    entries: Seq<Entry>,
    appended: Env<Entry>,
    copy: Env<Entry>,
    extended: Env<Entry>,
)
    requires
        appended@.len() == env@.len() + entries.len(),
        forall|i: int| 0 <= i < env@.len() ==> cloned(env@[i], #[trigger] appended@[i]),
        appended@.subrange(env@.len() as int, appended@.len() as int) == entries,
        copy@.len() == env@.len(),
        forall|i: int| 0 <= i < env@.len() ==> cloned(env@[i], #[trigger] copy@[i]),
        extended@ == copy@ + entries,
    ensures
        appended@.len() == extended@.len(),
        forall|i: int| 0 <= i < appended@.len() ==> (#[trigger] appended@[i])@ == extended@[i]@,
{
    law_append_is_clone_then_extend(env, entries, appended, copy, extended);
    assert forall|i: int| 0 <= i < appended@.len() implies (#[trigger] appended@[i])@ == extended@[i]@ by {
        if i < env@.len() {
            assert(cloned(env@[i], appended@[i]));
            assert(cloned(env@[i], extended@[i]));
        }
    }
}

} // verus!
