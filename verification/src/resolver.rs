//! Static validation of variable bindings and scoping, before any code is
//! generated.
//!
//! The resolver walks the statement tree once with a stack of lexical
//! scopes.  A name is *declared* when its `var` statement is reached and
//! *defined* once its initialiser has been resolved, so an initialiser
//! that reads its own name is rejected.  Redeclaring a name in the scope
//! that already holds it is an error; shadowing an outer scope is not.
//! On leaving a scope, a warning (never an error) is recorded for every
//! binding that was never read.

use vstd::prelude::*;
use vstd::string::StringExecFns;
use crate::error::Error;
use crate::expr::{Expr, Variable};
use crate::stmt::Stmt;
use crate::token::Token;
use crate::util::Stack;

verus! {

/// Whether a name is merely reserved or ready to be read.
#[derive(Debug, Clone, Copy, PartialEq, Eq, Structural)]
pub enum NameStatus {
    Declared,
    Defined,
}

/// The resolver's record for one name in one scope.
#[derive(Debug, Clone, Copy, PartialEq, Eq, Structural)]
pub struct ResolveStatus {
    pub name_status: NameStatus,
    pub is_read: bool,
    pub decl_line: u32,
}

impl ResolveStatus {
    /// A fresh record for a name just declared on `line`.
    pub fn declare(line: u32) -> (r: ResolveStatus)
        ensures
            r == (ResolveStatus {
                name_status: NameStatus::Declared,
                is_read: false,
                decl_line: line,
            }),
    {
        ResolveStatus { name_status: NameStatus::Declared, is_read: false, decl_line: line }
    }

    /// Marks the initialiser complete: the name may now be read.
    pub fn define(&mut self)
        ensures
            *final(self) == (ResolveStatus {
                name_status: NameStatus::Defined,
                ..*old(self)
            }),
    {
        self.name_status = NameStatus::Defined;
    }

    pub fn mark_as_read(&mut self)
        ensures
            *final(self) == (ResolveStatus { is_read: true, ..*old(self) }),
    {
        self.is_read = true;
    }

    pub fn is_unread(&self) -> (r: bool)
        ensures
            r == !self.is_read,
    {
        !self.is_read
    }

    pub fn get_line(&self) -> (r: u32)
        ensures
            r == self.decl_line,
    {
        self.decl_line
    }
}

/// One name bound in a scope, with its resolution record.
pub struct Binding {
    pub name: String,
    pub status: ResolveStatus,
}

/// A non-fatal diagnostic: a binding that was declared but never read.
#[derive(Debug, Clone, PartialEq, Eq)]
pub struct Warning {
    pub line: u32,
    pub name: String,
}

/// The index of `name` in one scope, if the scope binds it.
pub open spec fn scope_index(scope: Seq<Binding>, name: Seq<char>) -> Option<int>
    decreases scope.len(),
{
    if scope.len() == 0 {
        None
    } else if scope.last().name@ == name {
        Some(scope.len() - 1)
    } else {
        scope_index(scope.drop_last(), name)
    }
}

/// Whether one scope binds `name`.
pub open spec fn scope_has(scope: Seq<Binding>, name: Seq<char>) -> bool {
    scope_index(scope, name) is Some
}

/// The warnings one scope yields when it is left, as line-and-name pairs:
/// one per binding that was never read, in binding order.
pub open spec fn unread_warnings(scope: Seq<Binding>) -> Seq<(u32, Seq<char>)>
    decreases scope.len(),
{
    if scope.len() == 0 {
        Seq::<(u32, Seq<char>)>::empty()
    } else {
        unread_warnings(scope.drop_last()) + if scope.last().status.is_read {
            Seq::<(u32, Seq<char>)>::empty()
        } else {
            seq![(scope.last().status.decl_line, scope.last().name@)]
        }
    }
}

/// The recorded warnings as line-and-name pairs.
pub open spec fn warnings_model(ws: Seq<Warning>) -> Seq<(u32, Seq<char>)> {
    ws.map_values(|w: Warning| (w.line, w.name@))
}

/// The depth, counting outward from the innermost scope, of the nearest
/// scope that binds `name`.  This is the `jump` the resolver records on a
/// variable reference.
pub open spec fn find_depth(scopes: Seq<Vec<Binding>>, name: Seq<char>) -> Option<int>
    decreases scopes.len(),
{
    if scopes.len() == 0 {
        None
    } else if scope_has(scopes.last()@, name) {
        Some(0)
    } else {
        match find_depth(scopes.drop_last(), name) {
            Some(d) => Some(d + 1),
            None => None,
        }
    }
}

/// Whether two scope stacks bind the same names with the same statuses
/// and declaration lines, differing at most in read flags.
pub open spec fn same_shape(a: Seq<Vec<Binding>>, b: Seq<Vec<Binding>>) -> bool {
    &&& a.len() == b.len()
    &&& forall|p: int| 0 <= p < a.len() ==> (#[trigger] b[p]@).len() == a[p]@.len()
    &&& forall|p: int, q: int|
        0 <= p < a.len() && 0 <= q < a[p]@.len() ==> {
            &&& (#[trigger] b[p]@[q]).name@ == a[p]@[q].name@
            &&& b[p]@[q].status.name_status == a[p]@[q].status.name_status
            &&& b[p]@[q].status.decl_line == a[p]@[q].status.decl_line
        }
}

/// Whether the innermost scope binds `name` while its initialiser is
/// still being resolved: reading such a name is an error.
pub open spec fn top_blocks_read(scopes: Seq<Vec<Binding>>, name: Seq<char>) -> bool {
    &&& scopes.len() >= 1
    &&& match scope_index(scopes.last()@, name) {
        Some(i) => scopes.last()@[i].status.name_status == NameStatus::Declared,
        None => false,
    }
}

/// A variable declaration whose initialiser reads the declared name
/// itself, as in `var x = x;`.
pub open spec fn reads_own_name(s: Stmt) -> bool {
    match s {
        Stmt::Var(v) => match v.init {
            Some(e) => match e {
                Expr::Variable(w) => w.name.lexeme@ == v.name.lexeme@,
                _ => false,
            },
            _ => false,
        },
        _ => false,
    }
}

/// An expression that reads and writes no variable: literals combined by
/// binary, logical, unary and grouping forms.
pub open spec fn expr_names_free(e: Expr) -> bool
    decreases e,
{
    match e {
        Expr::Literal(_) => true,
        Expr::Grouping(g) => expr_names_free(*g.expression),
        Expr::Unary(u) => expr_names_free(*u.right),
        Expr::Binary(b) => expr_names_free(*b.left) && expr_names_free(*b.right),
        Expr::Logical(l) => expr_names_free(*l.left) && expr_names_free(*l.right),
        _ => false,
    }
}

/// A statement that declares and reads no name at all.
pub open spec fn stmt_names_free(s: Stmt) -> bool
    decreases s,
{
    match s {
        Stmt::Expression(e) => expr_names_free(e.expression),
        Stmt::Print(p) => expr_names_free(p.expression),
        Stmt::Block(b) => stmts_names_free(b.statements@),
        Stmt::If(i) => expr_names_free(i.condition) && stmt_names_free(*i.then_branch) && (
        i.else_branch is Some ==> stmt_names_free(*i.else_branch->Some_0)),
        Stmt::Return(r) => r.value is Some ==> expr_names_free(r.value->Some_0),
        Stmt::While(w) => expr_names_free(w.condition) && stmt_names_free(*w.body),
        _ => false,
    }
}

/// A statement list that declares and reads no name at all.
pub open spec fn stmts_names_free(ss: Seq<Stmt>) -> bool
    decreases ss,
{
    forall|k: int| 0 <= k < ss.len() ==> stmt_names_free(#[trigger] ss[k])
}

/// Whether a statement list declares the same name twice at its own
/// level: both declarations then share one scope.
pub open spec fn redeclares(ss: Seq<Stmt>) -> bool {
    exists|i: int, j: int|
        0 <= i < j < ss.len() && (#[trigger] ss[i]) is Var && (#[trigger] ss[j]) is Var
            && ss[i]->Var_0.name.lexeme@ == ss[j]->Var_0.name.lexeme@
}

/// Every name bound in any scope of `a` is still bound in the matching
/// scope of `b`: resolution never drops a binding from a live scope.
pub open spec fn names_kept(a: Seq<Vec<Binding>>, b: Seq<Vec<Binding>>) -> bool {
    &&& a.len() == b.len()
    &&& forall|p: int, n: Seq<char>|
        0 <= p < a.len() && #[trigger] scope_has(a[p]@, n) ==> #[trigger] scope_has(b[p]@, n)
}

/// A scope that binds a name still binds it after another binding is
/// appended.
pub proof fn lemma_scope_has_push(s: Seq<Binding>, b: Binding, n: Seq<char>)
    requires
        scope_has(s, n),
    ensures
        scope_has(s.push(b), n),
{
    assert(s.push(b).drop_last() =~= s);
}

/// Shape-preserving steps (which touch read flags at most) keep every
/// binding of every scope.
pub proof fn lemma_same_shape_names_kept(a: Seq<Vec<Binding>>, b: Seq<Vec<Binding>>)
    requires
        same_shape(a, b),
    ensures
        names_kept(a, b),
{
    assert forall|p: int, n: Seq<char>|
        0 <= p < a.len() && #[trigger] scope_has(a[p]@, n) implies #[trigger] scope_has(
        b[p]@,
        n,
    ) by {
        lemma_scope_index_same(a[p]@, b[p]@, n);
    }
}

/// [`names_kept`] composes across successive resolution steps.
pub proof fn lemma_names_kept_trans(
    a: Seq<Vec<Binding>>,
    b: Seq<Vec<Binding>>,
    c: Seq<Vec<Binding>>,
)
    requires
        names_kept(a, b),
        names_kept(b, c),
    ensures
        names_kept(a, c),
{
    assert forall|p: int, n: Seq<char>|
        0 <= p < a.len() && #[trigger] scope_has(a[p]@, n) implies #[trigger] scope_has(
        c[p]@,
        n,
    ) by {
        assert(scope_has(b[p]@, n));
    }
}

/// Scopes that bind the same names in the same order agree on where any
/// name is bound.
pub proof fn lemma_scope_index_same(sc1: Seq<Binding>, sc2: Seq<Binding>, name: Seq<char>)
    requires
        sc1.len() == sc2.len(),
        forall|q: int| 0 <= q < sc1.len() ==> (#[trigger] sc2[q]).name@ == sc1[q].name@,
    ensures
        scope_index(sc2, name) == scope_index(sc1, name),
    decreases sc1.len(),
{
    if sc1.len() == 0 {
    } else {
        assert(sc2.last().name@ == sc1.last().name@);
        assert(forall|q: int|
            0 <= q < sc1.drop_last().len() ==> (#[trigger] sc2.drop_last()[q]).name@
                == sc1.drop_last()[q].name@);
        lemma_scope_index_same(sc1.drop_last(), sc2.drop_last(), name);
    }
}

/// The resolver: a stack of lexical scopes (the innermost on top) and the
/// diagnostics recorded so far.
pub struct Resolver {
    pub scopes: Stack<Vec<Binding>>,
    pub global_init_order: Vec<String>,
    pub had_error: bool,
    pub errors: Vec<Error>,
    pub warnings: Vec<Warning>,
}

impl Resolver {
    pub fn new() -> (r: Resolver)
        ensures
            r.scopes@ == Seq::<Vec<Binding>>::empty(),
            r.had_error == false,
            r.errors@ == Seq::<Error>::empty(),
            r.warnings@ == Seq::<Warning>::empty(),
    {
        Resolver {
            scopes: Stack::new(),
            global_init_order: Vec::new(),
            had_error: false,
            errors: Vec::new(),
            warnings: Vec::new(),
        }
    }

    /// Opens a fresh, empty innermost scope.  A name from an outer scope
    /// can always be redeclared here: shadowing is allowed.
    fn begin_scope(&mut self)
        ensures
            final(self).scopes@.len() == old(self).scopes@.len() + 1,
            final(self).scopes@.last()@ == Seq::<Binding>::empty(),
            final(self).scopes@.drop_last() == old(self).scopes@,
            final(self).had_error == old(self).had_error,
            final(self).errors == old(self).errors,
            final(self).warnings == old(self).warnings,
    {
        self.scopes.push(Vec::new());
    }

    /// Leaves the innermost scope: records a warning for every binding in
    /// it that was never read, and never records an error.
    fn end_scope(&mut self)
        requires
            old(self).scopes@.len() >= 1,
        ensures
            final(self).scopes@ == old(self).scopes@.drop_last(),
            final(self).had_error == old(self).had_error,
            final(self).errors == old(self).errors,
            warnings_model(final(self).warnings@) == warnings_model(old(self).warnings@)
                + unread_warnings(old(self).scopes@.last()@),
            old(self).scopes@.last()@.len() == 0 ==> final(self).warnings == old(self).warnings,
    {
        self.warn_unused();
        self.scopes.pop();
    }

    /// Records the unread-binding warnings for the innermost scope.
    fn warn_unused(&mut self)
        requires
            old(self).scopes@.len() >= 1,
        ensures
            final(self).scopes == old(self).scopes,
            final(self).had_error == old(self).had_error,
            final(self).errors == old(self).errors,
            warnings_model(final(self).warnings@) == warnings_model(old(self).warnings@)
                + unread_warnings(old(self).scopes@.last()@),
            old(self).scopes@.last()@.len() == 0 ==> final(self).warnings == old(self).warnings,
    {
        let ghost scope0 = self.scopes@.last()@;
        let ghost w0 = warnings_model(self.warnings@);
        let scope = self.scopes.peek(0);
        let n = scope.len();
        let mut i: usize = 0;
        while i < n
            invariant
                i <= n,
                n == scope0.len(),
                self.scopes == old(self).scopes,
                scope == old(self).scopes@.last(),
                scope@ == scope0,
                self.had_error == old(self).had_error,
                self.errors == old(self).errors,
                warnings_model(self.warnings@) == w0 + unread_warnings(scope0.take(i as int)),
                scope0.len() == 0 ==> self.warnings == old(self).warnings,
            decreases n - i,
        {
            proof {
                assert(scope0.take(i + 1).drop_last() =~= scope0.take(i as int));
                assert(scope0.take(i + 1).last() == scope0[i as int]);
            }
            let b = &scope[i];
            if b.status.is_unread() {
                let ghost ws_before = self.warnings@;
                let w = Warning { line: b.status.get_line(), name: b.name.clone() };
                proof {
                    assert(w.line == scope0[i as int].status.decl_line);
                    assert(w.name@ == scope0[i as int].name@);
                }
                self.warnings.push(w);
                proof {
                    assert(self.warnings@ == ws_before.push(w));
                    assert(!scope0[i as int].status.is_read);
                    assert(unread_warnings(scope0.take(i + 1)) == unread_warnings(scope0.take(
                        i as int,
                    )) + seq![(scope0[i as int].status.decl_line, scope0[i as int].name@)]);
                    assert(warnings_model(self.warnings@) =~= warnings_model(ws_before).push(
                        (w.line, w.name@),
                    ));
                    assert(warnings_model(self.warnings@) =~= w0 + unread_warnings(
                        scope0.take(i + 1),
                    ));
                }
            } else {
                proof {
                    assert(unread_warnings(scope0.take(i + 1)) =~= unread_warnings(
                        scope0.take(i as int),
                    ));
                }
            }
            i = i + 1;
        }
        proof {
            assert(scope0.take(n as int) =~= scope0);
        }
    }

    /// Reserves `name` in the innermost scope.  This fails exactly when
    /// that scope already binds the name: redeclaring in the same scope is
    /// an error, while the same name in any outer scope is untouched.
    fn declare_name(&mut self, name: &Token) -> (r: Result<(), Error>)
        requires
            old(self).scopes@.len() >= 1,
        ensures
            final(self).had_error == old(self).had_error,
            final(self).errors == old(self).errors,
            final(self).warnings == old(self).warnings,
            final(self).scopes@.len() == old(self).scopes@.len(),
            final(self).scopes@.drop_last() == old(self).scopes@.drop_last(),
            match r {
                Ok(_) => {
                    &&& !scope_has(old(self).scopes@.last()@, name.lexeme@)
                    &&& final(self).scopes@.last()@.len() == old(self).scopes@.last()@.len() + 1
                    &&& final(self).scopes@.last()@.last().name@ == name.lexeme@
                    &&& final(self).scopes@.last()@.last().status == (ResolveStatus {
                        name_status: NameStatus::Declared,
                        is_read: false,
                        decl_line: name.line,
                    })
                    &&& final(self).scopes@.last()@.drop_last() == old(self).scopes@.last()@
                },
                Err(_) => {
                    &&& scope_has(old(self).scopes@.last()@, name.lexeme@)
                    &&& final(self).scopes == old(self).scopes
                },
            },
    {
        let has = self.top_scope_has(&name.lexeme);
        if has {
            return Err(Error::from_token(name, String::from_str("Name already in use.")));
        }
        let ghost pre = *self;
        let scope = self.scopes.peek_mut(0);
        scope.push(
            Binding { name: name.lexeme.clone(), status: ResolveStatus::declare(name.line) },
        );
        proof {
            assert(self.scopes@.last()@.drop_last() =~= pre.scopes@.last()@);
            assert(self.scopes@.drop_last() =~= pre.scopes@.drop_last());
        }
        Ok(())
    }

    /// Marks the innermost binding of `name` as defined: its initialiser
    /// is complete and the name may be read from now on.
    fn define_name(&mut self, name: &Token)
        requires
            old(self).scopes@.len() >= 1,
            scope_has(old(self).scopes@.last()@, name.lexeme@),
        ensures
            final(self).had_error == old(self).had_error,
            final(self).errors == old(self).errors,
            final(self).warnings == old(self).warnings,
            final(self).scopes@.len() == old(self).scopes@.len(),
            final(self).scopes@.drop_last() == old(self).scopes@.drop_last(),
            ({
                let top = old(self).scopes@.last()@;
                let i = scope_index(top, name.lexeme@)->Some_0;
                final(self).scopes@.last()@ == top.update(
                    i,
                    Binding {
                        name: top[i].name,
                        status: ResolveStatus {
                            name_status: NameStatus::Defined,
                            ..top[i].status
                        },
                    },
                )
            }),
    {
        let ghost pre = *self;
        proof {
            assert(scope_has(pre.scopes@.last()@, name.lexeme@));
        }
        let sc = self.scopes.peek(0);
        proof {
            assert(*sc == pre.scopes@.last());
            assert(sc@ == pre.scopes@.last()@);
            assert(scope_index(sc@, name.lexeme@) is Some);
            assert(sc.len() == sc@.len());
        }
        let found = Self::scope_find(sc, &name.lexeme);
        proof {
            assert(found is Some);
            assert(found matches Some(j) && j as int == scope_index(
                pre.scopes@.last()@,
                name.lexeme@,
            )->Some_0);
        }
        let idx = match found {
            Some(idx) => idx,
            None => 0,
        };
        proof {
            let top = pre.scopes@.last()@;
            let i = scope_index(top, name.lexeme@)->Some_0;
            assert(idx as int == i);
        }
        let scope = self.scopes.peek_mut(0);
        let b = &mut scope[idx];
        b.status.define();
        proof {
            let top = pre.scopes@.last()@;
            let i = scope_index(top, name.lexeme@)->Some_0;
            assert(idx as int == i);
            assert(scope@[i] == Binding {
                name: top[i].name,
                status: ResolveStatus { name_status: NameStatus::Defined, ..top[i].status },
            });
            assert(scope@ =~= top.update(
                i,
                Binding {
                    name: top[i].name,
                    status: ResolveStatus { name_status: NameStatus::Defined, ..top[i].status },
                },
            ));
        }
        proof {
            let top = pre.scopes@.last()@;
            let i = scope_index(top, name.lexeme@)->Some_0;
            assert(self.scopes@.last()@ =~= top.update(
                i,
                Binding {
                    name: top[i].name,
                    status: ResolveStatus { name_status: NameStatus::Defined, ..top[i].status },
                },
            ));
            assert(self.scopes@.drop_last() =~= pre.scopes@.drop_last());
        }
    }

    /// Declares and immediately defines `name`, as function declarations
    /// do so that a function can refer to itself.
    fn declare_define(&mut self, name: &Token) -> (r: Result<(), Error>)
        requires
            old(self).scopes@.len() >= 1,
        ensures
            final(self).had_error == old(self).had_error,
            final(self).errors == old(self).errors,
            final(self).warnings == old(self).warnings,
            final(self).scopes@.len() == old(self).scopes@.len(),
            final(self).scopes@.drop_last() == old(self).scopes@.drop_last(),
            r is Err ==> scope_has(old(self).scopes@.last()@, name.lexeme@),
            r is Ok ==> !scope_has(old(self).scopes@.last()@, name.lexeme@)
                && final(self).scopes@.last()@.len() == old(self).scopes@.last()@.len() + 1,
            names_kept(old(self).scopes@, final(self).scopes@),
            r is Ok ==> scope_has(final(self).scopes@.last()@, name.lexeme@),
    {
        let ghost pre = *self;
        let r = self.declare_name(name);
        match r {
            Ok(_) => {},
            Err(er) => {
                return Err(er);
            },
        }
        proof {
            assert(scope_has(self.scopes@.last()@, name.lexeme@));
        }
        let ghost mid = *self;
        self.define_name(name);
        proof {
            let p0 = pre.scopes@.len() - 1;
            assert(mid.scopes@[p0]@ =~= pre.scopes@[p0]@.push(mid.scopes@[p0]@.last()));
            assert forall|p: int, n: Seq<char>|
                0 <= p < pre.scopes@.len() && #[trigger] scope_has(
                    pre.scopes@[p]@,
                    n,
                ) implies #[trigger] scope_has(mid.scopes@[p]@, n) by {
                if p == p0 {
                    lemma_scope_has_push(pre.scopes@[p]@, mid.scopes@[p]@.last(), n);
                } else {
                    assert(mid.scopes@[p] == mid.scopes@.drop_last()[p]);
                    assert(pre.scopes@[p] == pre.scopes@.drop_last()[p]);
                }
            }
            assert forall|p: int, n: Seq<char>|
                0 <= p < mid.scopes@.len() && #[trigger] scope_has(
                    mid.scopes@[p]@,
                    n,
                ) implies #[trigger] scope_has(self.scopes@[p]@, n) by {
                if p == p0 {
                    lemma_scope_index_same(mid.scopes@[p]@, self.scopes@[p]@, n);
                } else {
                    assert(self.scopes@[p] == self.scopes@.drop_last()[p]);
                    assert(mid.scopes@[p] == mid.scopes@.drop_last()[p]);
                }
            }
            lemma_names_kept_trans(pre.scopes@, mid.scopes@, self.scopes@);
            lemma_scope_index_same(mid.scopes@.last()@, self.scopes@.last()@, name.lexeme@);
        }
        Ok(())
    }

    /// Whether the innermost scope binds `name`.
    fn top_scope_has(&self, name: &String) -> (r: bool)
        requires
            self.scopes@.len() >= 1,
        ensures
            r == scope_has(self.scopes@.last()@, name@),
    {
        let scope = self.scopes.peek(0);
        let idx = Self::scope_find(scope, name);
        idx.is_some()
    }

    /// Records a diagnostic and marks the resolution as failed.
    fn emit_error(&mut self, error: Error)
        ensures
            final(self).errors@ == old(self).errors@.push(error),
            final(self).had_error == true,
            final(self).scopes == old(self).scopes,
            final(self).warnings == old(self).warnings,
    {
        self.errors.push(error);
        self.had_error = true;
    }

    /// Resolves a variable reference: finds the nearest enclosing scope
    /// binding the name, records the scope distance as the reference's
    /// `jump`, and marks the binding as read.  An unbound name is an
    /// error.
    #[verifier::loop_isolation(false)]
    fn resolve_variable(&mut self, variable: Variable) -> (r: Result<Variable, Error>)
        requires
            old(self).scopes@.len() >= 1,
        ensures
            final(self).had_error == old(self).had_error,
            final(self).errors == old(self).errors,
            final(self).warnings == old(self).warnings,
            same_shape(old(self).scopes@, final(self).scopes@),
            ({
                let found = find_depth(old(self).scopes@, variable.name.lexeme@);
                &&& (r is Err <==> (found is None || found->Some_0 > i32::MAX))
                &&& (match found {
                    Some(d) => d <= i32::MAX ==> (r matches Ok(v) && v.jump as int == d
                        && v.name == variable.name),
                    None => final(self).scopes == old(self).scopes,
                })
            }),
    {
        let ghost pre = *self;
        let dmax = self.scopes.depth();
        let mut depth: usize = 0;
        proof {
            assert(pre.scopes@.take(dmax as int) =~= pre.scopes@);
        }
        while depth < dmax
            invariant
                depth <= dmax,
                *self == pre,
                dmax == pre.scopes@.len(),
                find_depth(pre.scopes@, variable.name.lexeme@) == (match find_depth(
                    pre.scopes@.take(dmax - depth),
                    variable.name.lexeme@,
                ) {
                    Some(d) => Some(d + depth),
                    None => None::<int>,
                }),
            decreases dmax - depth,
        {
            let scope = self.scopes.peek(depth);
            let found = Self::scope_find(scope, &variable.name.lexeme);
            proof {
                assert(pre.scopes@.take(dmax - depth).last() == pre.scopes@[dmax - depth - 1]);
                assert(pre.scopes@.take(dmax - depth).drop_last() =~= pre.scopes@.take(
                    dmax - depth - 1,
                ));
            }
            match found {
                Some(idx) => {
                    if depth > 2147483647 {
                        return Err(
                            Error::from_token(
                                &variable.name,
                                String::from_str("Scope nesting is too deep."),
                            ),
                        );
                    }
                    let ghost sc0 = self.scopes@[dmax - depth - 1]@;
                    let scope = self.scopes.peek_mut(depth);
                    let b = &mut scope[idx];
                    b.status.mark_as_read();
                    proof {
                        assert(self.scopes@[dmax - depth - 1]@ =~= sc0.update(
                            idx as int,
                            Binding {
                                name: sc0[idx as int].name,
                                status: ResolveStatus { is_read: true, ..sc0[idx as int].status },
                            },
                        ));
                        assert(same_shape(pre.scopes@, self.scopes@));
                    }
                    return Ok(
                        Variable { name: variable.name, jump: depth as i32 },
                    );
                },
                None => {},
            }
            depth = depth + 1;
        }
        proof {
            assert(pre.scopes@.take(0).len() == 0);
        }
        Err(Error::from_token(&variable.name, String::from_str("Undeclared symbol.")))
    }

    /// Resolves one expression, rebuilding it with every variable
    /// reference annotated.  Reading a name whose own initialiser is
    /// still being resolved is an error.
    #[verifier::loop_isolation(false)]
    fn resolve_expr(&mut self, e: Expr) -> (r: Result<Expr, Error>)
        requires
            old(self).scopes@.len() >= 1,
        ensures
            final(self).scopes@.len() == old(self).scopes@.len(),
            same_shape(old(self).scopes@, final(self).scopes@),
            final(self).had_error == old(self).had_error,
            final(self).errors == old(self).errors,
            final(self).warnings == old(self).warnings,
            e matches Expr::Variable(v) ==> (r is Err <==> (top_blocks_read(
                old(self).scopes@,
                v.name.lexeme@,
            ) || find_depth(old(self).scopes@, v.name.lexeme@) is None || find_depth(
                old(self).scopes@,
                v.name.lexeme@,
            )->Some_0 > i32::MAX)),
            expr_names_free(e) ==> (r matches Ok(e2) && e2 == e)
                && final(self).scopes@ == old(self).scopes@,
            e is Variable && top_blocks_read(old(self).scopes@, e->Variable_0.name.lexeme@)
                ==> (r matches Err(er) && er.line == e->Variable_0.name.line && er.loc@
                == " at '"@ + e->Variable_0.name.lexeme@ + "'"@ && er.msg@
                == "Cannot read a local variable in its own initialiser."@),
        decreases e,
    {
        let ghost pre = *self;
        match e {
            Expr::Assign(assign) => {
                let rhs = match self.resolve_expr(*assign.rhs) {
                    Ok(x) => x,
                    Err(er) => {
                        return Err(er);
                    },
                };
                let lhs = match self.resolve_variable(assign.lhs) {
                    Ok(x) => x,
                    Err(er) => {
                        return Err(er);
                    },
                };
                Ok(Expr::Assign(crate::expr::Assign { lhs, rhs: Box::new(rhs) }))
            },
            Expr::Binary(binary) => {
                let left = match self.resolve_expr(*binary.left) {
                    Ok(x) => x,
                    Err(er) => {
                        return Err(er);
                    },
                };
                let right = match self.resolve_expr(*binary.right) {
                    Ok(x) => x,
                    Err(er) => {
                        return Err(er);
                    },
                };
                Ok(
                    Expr::Binary(
                        crate::expr::Binary {
                            left: Box::new(left),
                            operator: binary.operator,
                            right: Box::new(right),
                        },
                    ),
                )
            },
            Expr::Call(call) => {
                let callee = match self.resolve_expr(*call.callee) {
                    Ok(x) => x,
                    Err(er) => {
                        return Err(er);
                    },
                };
                let ghost call0 = call;
                let mut rest = call.arguments;
                let mut args: Vec<Box<Expr>> = Vec::new();
                let ghost args0 = rest@;
                while rest.len() > 0
                    invariant
                        self.scopes@.len() == pre.scopes@.len(),
                        same_shape(pre.scopes@, self.scopes@),
                        self.had_error == pre.had_error,
                        self.errors == pre.errors,
                        self.warnings == pre.warnings,
                        rest@.len() <= args0.len(),
                        forall|k: int|
                            0 <= k < rest@.len() ==> rest@[k] == args0[args0.len() - rest@.len()
                                + k],
                    decreases rest@.len(),
                {
                    let a = rest.remove(0);
                    proof {
                        assert(*a == args0[args0.len() - rest@.len() - 1]);
                        assert(e->Call_0 == call0);
                        assert(decreases_to!(e => e->Call_0));
                        assert(decreases_to!(call0 => call0.arguments));
                        assert(decreases_to!(call0.arguments => call0.arguments@));
                        assert(decreases_to!(call0.arguments@ => call0.arguments@[args0.len()
                            - rest@.len() - 1]));
                    }
                    let a2 = match self.resolve_expr(*a) {
                        Ok(x) => x,
                        Err(er) => {
                            return Err(er);
                        },
                    };
                    args.push(Box::new(a2));
                }
                Ok(
                    Expr::Call(
                        crate::expr::Call {
                            callee: Box::new(callee),
                            paren: call.paren,
                            arguments: args,
                        },
                    ),
                )
            },
            Expr::Grouping(grouping) => {
                let inner = match self.resolve_expr(*grouping.expression) {
                    Ok(x) => x,
                    Err(er) => {
                        return Err(er);
                    },
                };
                Ok(Expr::Grouping(crate::expr::Grouping { expression: Box::new(inner) }))
            },
            Expr::Literal(literal) => Ok(Expr::Literal(literal)),
            Expr::Logical(logical) => {
                let left = match self.resolve_expr(*logical.left) {
                    Ok(x) => x,
                    Err(er) => {
                        return Err(er);
                    },
                };
                let right = match self.resolve_expr(*logical.right) {
                    Ok(x) => x,
                    Err(er) => {
                        return Err(er);
                    },
                };
                Ok(
                    Expr::Logical(
                        crate::expr::Logical {
                            left: Box::new(left),
                            operator: logical.operator,
                            right: Box::new(right),
                        },
                    ),
                )
            },
            Expr::Unary(unary) => {
                let right = match self.resolve_expr(*unary.right) {
                    Ok(x) => x,
                    Err(er) => {
                        return Err(er);
                    },
                };
                Ok(
                    Expr::Unary(
                        crate::expr::Unary { operator: unary.operator, right: Box::new(right) },
                    ),
                )
            },
            Expr::Variable(variable) => {
                let scope = self.scopes.peek(0);
                proof {
                    assert(scope.len() == scope@.len());
                }
                let blocked = match Self::scope_find(scope, &variable.name.lexeme) {
                    Some(idx) => scope[idx].status.name_status == NameStatus::Declared,
                    None => false,
                };
                proof {
                    assert(blocked == top_blocks_read(pre.scopes@, variable.name.lexeme@));
                }
                if blocked {
                    return Err(
                        Error::from_token(
                            &variable.name,
                            String::from_str(
                                "Cannot read a local variable in its own initialiser.",
                            ),
                        ),
                    );
                }
                let resolved = match self.resolve_variable(variable) {
                    Ok(x) => x,
                    Err(er) => {
                        return Err(er);
                    },
                };
                Ok(Expr::Variable(resolved))
            },
        }
    }

    /// Resolves one statement, rebuilding it with variable references
    /// annotated.  A redeclaration in the innermost scope, and an
    /// initialiser that reads its own name, are always errors.
    #[verifier::loop_isolation(false)]
    fn resolve_stmt(&mut self, s: Stmt) -> (r: Result<Stmt, Error>)
        requires
            old(self).scopes@.len() >= 1,
        ensures
            final(self).scopes@.len() == old(self).scopes@.len(),
            old(self).errors@.is_prefix_of(final(self).errors@),
            final(self).had_error == (old(self).had_error
                || final(self).errors@.len() > old(self).errors@.len()),
            reads_own_name(s) ==> r is Err,
            reads_own_name(s) && !scope_has(old(self).scopes@.last()@, s->Var_0.name.lexeme@)
                ==> (r matches Err(er) && er.line == s->Var_0.init->Some_0->Variable_0.name.line
                && er.loc@ == " at '"@ + s->Var_0.name.lexeme@ + "'"@ && er.msg@
                == "Cannot read a local variable in its own initialiser."@),
            s matches Stmt::Var(v) && scope_has(old(self).scopes@.last()@, v.name.lexeme@)
                ==> r is Err,
            stmt_names_free(s) ==> r is Ok && final(self).scopes@ == old(self).scopes@
                && final(self).errors == old(self).errors
                && final(self).warnings == old(self).warnings,
            names_kept(old(self).scopes@, final(self).scopes@),
            s is Var && r is Ok ==> scope_has(
                final(self).scopes@.last()@,
                s->Var_0.name.lexeme@,
            ),
        decreases s,
    {
        let ghost pre = *self;
        let ghost s0 = s;
        match s {
            Stmt::Block(block) => {
                self.begin_scope();
                let ghost m1 = self.scopes@;
                let statements = self.resolve_stmts(block.statements);
                let ghost m2 = self.scopes@;
                self.end_scope();
                proof {
                    assert forall|p: int, n: Seq<char>|
                        0 <= p < pre.scopes@.len() && #[trigger] scope_has(
                            pre.scopes@[p]@,
                            n,
                        ) implies #[trigger] scope_has(self.scopes@[p]@, n) by {
                        assert(m1[p] == m1.drop_last()[p]);
                        assert(scope_has(m1[p]@, n));
                        assert(scope_has(m2[p]@, n));
                        assert(self.scopes@[p] == m2.drop_last()[p]);
                    }
                }
                Ok(Stmt::Block(crate::stmt::Block { statements, line: block.line }))
            },
            Stmt::Expression(expression) => {
                let e = match self.resolve_expr(expression.expression) {
                    Ok(x) => x,
                    Err(er) => {
                        proof {
                            lemma_same_shape_names_kept(pre.scopes@, self.scopes@);
                        }
                        return Err(er);
                    },
                };
                proof {
                    lemma_same_shape_names_kept(pre.scopes@, self.scopes@);
                }
                Ok(Stmt::Expression(crate::stmt::Expression { expression: e }))
            },
            Stmt::Function(function) => {
                let r = self.declare_define(&function.name);
                match r {
                    Ok(_) => {},
                    Err(er) => {
                        return Err(er);
                    },
                }
                let ghost m1 = self.scopes@;
                self.begin_scope();
                let n = function.params.len();
                let mut i: usize = 0;
                while i < n
                    invariant
                        i <= n,
                        n == function.params@.len(),
                        self.scopes@.len() == pre.scopes@.len() + 1,
                        self.scopes@.drop_last() == m1,
                        self.had_error == pre.had_error,
                        self.errors == pre.errors,
                        self.warnings == pre.warnings,
                    decreases n - i,
                {
                    let r = self.declare_define(&function.params[i]);
                    match r {
                        Ok(_) => {},
                        Err(er) => {
                            self.end_scope();
                            proof {
                                assert(self.scopes@ =~= m1);
                            }
                            return Err(er);
                        },
                    }
                    i = i + 1;
                }
                let ghost m3 = self.scopes@;
                let body = self.resolve_stmts(function.body);
                let ghost m4 = self.scopes@;
                self.end_scope();
                proof {
                    assert forall|p: int, n2: Seq<char>|
                        0 <= p < pre.scopes@.len() && #[trigger] scope_has(
                            pre.scopes@[p]@,
                            n2,
                        ) implies #[trigger] scope_has(self.scopes@[p]@, n2) by {
                        assert(scope_has(m1[p]@, n2));
                        assert(m3[p] == m3.drop_last()[p]);
                        assert(scope_has(m3[p]@, n2));
                        assert(scope_has(m4[p]@, n2));
                        assert(self.scopes@[p] == m4.drop_last()[p]);
                    }
                }
                Ok(
                    Stmt::Function(
                        crate::stmt::Function {
                            name: function.name,
                            params: function.params,
                            body,
                        },
                    ),
                )
            },
            Stmt::If(if_) => {
                let condition = match self.resolve_expr(if_.condition) {
                    Ok(x) => x,
                    Err(er) => {
                        proof {
                            lemma_same_shape_names_kept(pre.scopes@, self.scopes@);
                        }
                        return Err(er);
                    },
                };
                proof {
                    lemma_same_shape_names_kept(pre.scopes@, self.scopes@);
                }
                let ghost m1 = self.scopes@;
                let then_branch = match self.resolve_stmt(*if_.then_branch) {
                    Ok(x) => x,
                    Err(er) => {
                        proof {
                            lemma_names_kept_trans(pre.scopes@, m1, self.scopes@);
                        }
                        return Err(er);
                    },
                };
                proof {
                    lemma_names_kept_trans(pre.scopes@, m1, self.scopes@);
                }
                let ghost m2 = self.scopes@;
                let else_branch = match if_.else_branch {
                    Some(eb) => {
                        let eb2 = match self.resolve_stmt(*eb) {
                            Ok(x) => x,
                            Err(er) => {
                                proof {
                                    lemma_names_kept_trans(pre.scopes@, m2, self.scopes@);
                                }
                                return Err(er);
                            },
                        };
                        proof {
                            lemma_names_kept_trans(pre.scopes@, m2, self.scopes@);
                        }
                        Some(Box::new(eb2))
                    },
                    None => None,
                };
                Ok(
                    Stmt::If(
                        crate::stmt::If {
                            condition,
                            then_branch: Box::new(then_branch),
                            else_branch,
                        },
                    ),
                )
            },
            Stmt::Print(print) => {
                let e = match self.resolve_expr(print.expression) {
                    Ok(x) => x,
                    Err(er) => {
                        proof {
                            lemma_same_shape_names_kept(pre.scopes@, self.scopes@);
                        }
                        return Err(er);
                    },
                };
                proof {
                    lemma_same_shape_names_kept(pre.scopes@, self.scopes@);
                }
                Ok(Stmt::Print(crate::stmt::Print { expression: e }))
            },
            Stmt::Return(return_) => {
                let value = match return_.value {
                    Some(e) => {
                        let e2 = match self.resolve_expr(e) {
                            Ok(x) => x,
                            Err(er) => {
                                proof {
                                    lemma_same_shape_names_kept(pre.scopes@, self.scopes@);
                                }
                                return Err(er);
                            },
                        };
                        proof {
                            lemma_same_shape_names_kept(pre.scopes@, self.scopes@);
                        }
                        Some(e2)
                    },
                    None => None,
                };
                Ok(Stmt::Return(crate::stmt::Return { keyword: return_.keyword, value }))
            },
            Stmt::Var(var) => {
                let r = self.declare_name(&var.name);
                match r {
                    Ok(_) => {},
                    Err(er) => {
                        return Err(er);
                    },
                }
                let ghost after_declare = *self;
                proof {
                    let p0 = pre.scopes@.len() - 1;
                    assert(after_declare.scopes@[p0]@ =~= pre.scopes@[p0]@.push(
                        after_declare.scopes@[p0]@.last(),
                    ));
                    assert forall|p: int, n: Seq<char>|
                        0 <= p < pre.scopes@.len() && #[trigger] scope_has(
                            pre.scopes@[p]@,
                            n,
                        ) implies #[trigger] scope_has(after_declare.scopes@[p]@, n) by {
                        if p == p0 {
                            lemma_scope_has_push(
                                pre.scopes@[p]@,
                                after_declare.scopes@[p]@.last(),
                                n,
                            );
                        } else {
                            assert(after_declare.scopes@[p] == after_declare.scopes@.drop_last()[p]);
                            assert(pre.scopes@[p] == pre.scopes@.drop_last()[p]);
                        }
                    }
                }
                let init = match var.init {
                    Some(e) => {
                        proof {
                            if reads_own_name(s0) {
                                assert(top_blocks_read(after_declare.scopes@, var.name.lexeme@));
                            }
                        }
                        let e2 = match self.resolve_expr(e) {
                            Ok(x) => x,
                            Err(er) => {
                                proof {
                                    lemma_same_shape_names_kept(
                                        after_declare.scopes@,
                                        self.scopes@,
                                    );
                                    lemma_names_kept_trans(
                                        pre.scopes@,
                                        after_declare.scopes@,
                                        self.scopes@,
                                    );
                                }
                                return Err(er);
                            },
                        };
                        Some(e2)
                    },
                    None => None,
                };
                let ghost before_define = *self;
                proof {
                    lemma_scope_index_same(
                        after_declare.scopes@.last()@,
                        self.scopes@.last()@,
                        var.name.lexeme@,
                    );
                }
                self.define_name(&var.name);
                proof {
                    let p0 = pre.scopes@.len() - 1;
                    lemma_same_shape_names_kept(after_declare.scopes@, before_define.scopes@);
                    lemma_names_kept_trans(
                        pre.scopes@,
                        after_declare.scopes@,
                        before_define.scopes@,
                    );
                    assert forall|p: int, n: Seq<char>|
                        0 <= p < before_define.scopes@.len() && #[trigger] scope_has(
                            before_define.scopes@[p]@,
                            n,
                        ) implies #[trigger] scope_has(self.scopes@[p]@, n) by {
                        if p == p0 {
                            lemma_scope_index_same(
                                before_define.scopes@[p]@,
                                self.scopes@[p]@,
                                n,
                            );
                        } else {
                            assert(self.scopes@[p] == self.scopes@.drop_last()[p]);
                            assert(before_define.scopes@[p] == before_define.scopes@.drop_last()[p]);
                        }
                    }
                    lemma_names_kept_trans(pre.scopes@, before_define.scopes@, self.scopes@);
                    lemma_scope_index_same(
                        before_define.scopes@.last()@,
                        self.scopes@.last()@,
                        var.name.lexeme@,
                    );
                    assert(scope_has(after_declare.scopes@.last()@, var.name.lexeme@));
                }
                Ok(Stmt::Var(crate::stmt::Var { name: var.name, init }))
            },
            Stmt::While(while_) => {
                let condition = match self.resolve_expr(while_.condition) {
                    Ok(x) => x,
                    Err(er) => {
                        proof {
                            lemma_same_shape_names_kept(pre.scopes@, self.scopes@);
                        }
                        return Err(er);
                    },
                };
                proof {
                    lemma_same_shape_names_kept(pre.scopes@, self.scopes@);
                }
                let ghost m1 = self.scopes@;
                let body = match self.resolve_stmt(*while_.body) {
                    Ok(x) => x,
                    Err(er) => {
                        proof {
                            lemma_names_kept_trans(pre.scopes@, m1, self.scopes@);
                        }
                        return Err(er);
                    },
                };
                proof {
                    lemma_names_kept_trans(pre.scopes@, m1, self.scopes@);
                }
                Ok(Stmt::While(crate::stmt::While { condition, body: Box::new(body) }))
            },
        }
    }

    /// Resolves a statement list.  A statement that fails resolution has
    /// its diagnostic recorded and is dropped, and resolution continues
    /// with the rest of the list, so that one pass surfaces several
    /// errors.
    #[verifier::loop_isolation(false)]
    fn resolve_stmts(&mut self, stmts: Vec<Stmt>) -> (r: Vec<Stmt>)
        requires
            old(self).scopes@.len() >= 1,
        ensures
            final(self).scopes@.len() == old(self).scopes@.len(),
            old(self).errors@.is_prefix_of(final(self).errors@),
            final(self).had_error == (old(self).had_error
                || final(self).errors@.len() > old(self).errors@.len()),
            (exists|i: int| 0 <= i < stmts@.len() && reads_own_name(stmts@[i]))
                ==> final(self).had_error,
            stmts_names_free(stmts@) ==> final(self).scopes@ == old(self).scopes@
                && final(self).errors == old(self).errors
                && final(self).warnings == old(self).warnings,
            names_kept(old(self).scopes@, final(self).scopes@),
            redeclares(stmts@) ==> final(self).had_error,
        decreases stmts,
    {
        let ghost pre = *self;
        let ghost all = stmts@;
        let mut rest = stmts;
        let mut out: Vec<Stmt> = Vec::new();
        while rest.len() > 0
            invariant
                self.scopes@.len() == pre.scopes@.len(),
                pre.errors@.is_prefix_of(self.errors@),
                self.had_error == (pre.had_error || self.errors@.len() > pre.errors@.len()),
                rest@.len() <= all.len(),
                forall|k: int|
                    0 <= k < rest@.len() ==> rest@[k] == all[all.len() - rest@.len() + k],
                (exists|i: int|
                    0 <= i < all.len() - rest@.len() && reads_own_name(all[i])) ==> self.had_error,
                stmts_names_free(all) ==> self.scopes@ == pre.scopes@ && self.errors
                    == pre.errors && self.warnings == pre.warnings,
                names_kept(pre.scopes@, self.scopes@),
                forall|k: int|
                    0 <= k < all.len() - rest@.len() && (#[trigger] all[k]) is Var
                        ==> self.had_error || scope_has(
                        self.scopes@.last()@,
                        all[k]->Var_0.name.lexeme@,
                    ),
                redeclares(all.take(all.len() - rest@.len())) ==> self.had_error,
            decreases rest@.len(),
        {
            let ghost processed = all.len() - rest@.len();
            let s = rest.remove(0);
            proof {
                assert(s == all[processed]);
                assert(decreases_to!(stmts => all));
                assert(decreases_to!(all => all[processed]));
            }
            let ghost before = *self;
            let r = self.resolve_stmt(s);
            proof {
                lemma_names_kept_trans(pre.scopes@, before.scopes@, self.scopes@);
            }
            match r {
                Ok(s2) => {
                    out.push(s2);
                    proof {
                        let p0 = self.scopes@.len() - 1;
                        if redeclares(all.take(processed + 1)) {
                            let (i, j) = choose|i: int, j: int|
                                0 <= i < j < all.take(processed + 1).len() && (#[trigger] all.take(
                                    processed + 1,
                                )[i]) is Var && (#[trigger] all.take(processed + 1)[j]) is Var
                                    && all.take(processed + 1)[i]->Var_0.name.lexeme@ == all.take(
                                    processed + 1,
                                )[j]->Var_0.name.lexeme@;
                            assert(all.take(processed + 1)[i] == all[i]);
                            assert(all.take(processed + 1)[j] == all[j]);
                            if j == processed {
                                // an earlier declaration of the same name is
                                // still bound, so this one could not succeed
                                assert(all[i] is Var);
                                assert(before.had_error || scope_has(
                                    before.scopes@.last()@,
                                    all[i]->Var_0.name.lexeme@,
                                ));
                                assert(before.had_error);
                            } else {
                                assert(all.take(processed)[i] == all[i]);
                                assert(all.take(processed)[j] == all[j]);
                                assert(redeclares(all.take(processed)));
                            }
                            assert(self.had_error);
                        }
                    }
                },
                Err(er) => {
                    self.emit_error(er);
                },
            }
            proof {
                if exists|i: int| 0 <= i < processed + 1 && reads_own_name(all[i]) {
                    let i = choose|i: int| 0 <= i < processed + 1 && reads_own_name(all[i]);
                    if i == processed {
                        assert(self.had_error);
                    } else {
                        assert(self.had_error);
                    }
                }
            }
        }
        proof {
            assert(all.take(all.len() as int) =~= all);
        }
        out
    }

    /// Resolves a whole program inside one top-level scope, starting from
    /// a fresh state so that each program stands alone, and reports
    /// whether any resolution error was recorded: the flag is set exactly
    /// when at least one diagnostic was.  A declaration that reads its
    /// own name, and a redeclaration at the same level, always fail; a
    /// program that names no variable at all never does, and leaves no
    /// warnings behind.
    pub fn resolve(&mut self, stmts: Vec<Stmt>) -> (r: (Vec<Stmt>, bool))
        ensures
            r.1 == final(self).had_error,
            r.1 == (final(self).errors@.len() > 0),
            final(self).scopes@.len() == 0,
            (exists|i: int| 0 <= i < stmts@.len() && reads_own_name(stmts@[i])) ==> r.1,
            redeclares(stmts@) ==> r.1,
            stmts_names_free(stmts@) ==> r.1 == false && final(self).warnings@ == Seq::<
                Warning,
            >::empty(),
    {
        self.restart();
        self.begin_scope();
        let out = self.resolve_stmts(stmts);
        self.end_scope();
        (out, self.had_error)
    }

    /// Returns to a fresh state, dropping the scopes and diagnostics of
    /// any earlier program.
    fn restart(&mut self)
        ensures
            final(self).scopes@.len() == 0,
            final(self).had_error == false,
            final(self).errors@ == Seq::<Error>::empty(),
            final(self).warnings@ == Seq::<Warning>::empty(),
    {
        self.scopes.clear();
        self.global_init_order.clear();
        self.had_error = false;
        self.errors.clear();
        self.warnings.clear();
    }

    /// The index of `name` in `scope`, searching newest binding first.
    fn scope_find(scope: &Vec<Binding>, name: &String) -> (r: Option<usize>)
        ensures
            match scope_index(scope@, name@) {
                Some(i) => r == Some(i as usize) && 0 <= i < scope@.len(),
                None => r is None,
            },
    {
        let mut i = scope.len();
        proof {
            assert(scope@.take(i as int) =~= scope@);
        }
        while i > 0
            invariant
                i <= scope@.len(),
                scope_index(scope@, name@) == scope_index(scope@.take(i as int), name@),
            decreases i,
        {
            i = i - 1;
            if scope[i].name.eq(name) {
                proof {
                    assert(scope@.take(i + 1).last() == scope@[i as int]);
                }
                return Some(i);
            }
            proof {
                assert(scope@.take(i + 1).last() == scope@[i as int]);
                assert(scope@.take(i + 1).drop_last() =~= scope@.take(i as int));
            }
        }
        None
    }
}

} // verus!
