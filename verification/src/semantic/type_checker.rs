//! The type checker: walks the syntax tree with a tree of scopes and stops
//! at the first error.
use vstd::prelude::*;

use crate::common::errors::ErrorWithReason;
use crate::common::types::{BinaryOperator, LiteralValue, TypeName, UnaryOperator};
use crate::parsing::ast;
use crate::parsing::ast::{Expression, Statement, StatementWithCtx};
use crate::semantic::scope_tree;
use crate::semantic::scope_tree::{ScopeKey, ScopeTree, SpecScope, SpecSymbol};
use crate::semantic::types::SymbolInfo;
use crate::semantic::typing;
use crate::semantic::typing::SpecTypeError;

verus! {

#[derive(Debug, PartialEq)]
pub enum TypeError {
    RedeclaredIdentifier(String),
    UndeclaredIdentifier(String),
    InvalidAssignment { name: String, was: TypeName, new_type: TypeName },
    IncompatibleTypes { expected: TypeName, was: TypeName },
    InvalidBinaryOp(BinaryOperator, TypeName, TypeName),
    InvalidUnaryOp(UnaryOperator, TypeName),
    PrintArgumentError(TypeName),
    ReadArgumentError(TypeName),
    AssertArgumentError(TypeName),
    AssignToImmutable(String),
}

impl View for TypeError {
    type V = SpecTypeError;

    open spec fn view(&self) -> SpecTypeError {
        match self {
            TypeError::RedeclaredIdentifier(name) => SpecTypeError::RedeclaredIdentifier(name@),
            TypeError::UndeclaredIdentifier(name) => SpecTypeError::UndeclaredIdentifier(name@),
            TypeError::InvalidAssignment { name, was, new_type } => {
                SpecTypeError::InvalidAssignment { name: name@, was: *was, new_type: *new_type }
            },
            TypeError::IncompatibleTypes { expected, was } => SpecTypeError::IncompatibleTypes {
                expected: *expected,
                was: *was,
            },
            TypeError::InvalidBinaryOp(op, left, right) => SpecTypeError::InvalidBinaryOp(
                *op,
                *left,
                *right,
            ),
            TypeError::InvalidUnaryOp(op, inner) => SpecTypeError::InvalidUnaryOp(*op, *inner),
            TypeError::PrintArgumentError(was) => SpecTypeError::PrintArgumentError(*was),
            TypeError::ReadArgumentError(was) => SpecTypeError::ReadArgumentError(*was),
            TypeError::AssertArgumentError(was) => SpecTypeError::AssertArgumentError(*was),
            TypeError::AssignToImmutable(name) => SpecTypeError::AssignToImmutable(name@),
        }
    }
}

impl SpecTypeError {
    /// The message for a type error, where it has one.
    pub open spec fn reason(self) -> Option<Seq<char>> {
        match self {
            SpecTypeError::RedeclaredIdentifier(name) => Some(
                "Identifier "@ + name + " was redeclared."@,
            ),
            SpecTypeError::UndeclaredIdentifier(name) => Some(
                "Identifier "@ + name + " was used before declaration."@,
            ),
            SpecTypeError::InvalidAssignment { name, was, new_type } => Some(
                "Tried to assign <"@ + was.keyword() + "> to \""@ + name + "\", which is <"@
                    + new_type.keyword() + ">."@,
            ),
            _ => None,
        }
    }
}

impl ErrorWithReason for TypeError {
    open spec fn reason(&self) -> Option<Seq<char>> {
        self@.reason()
    }

    fn get_reason(&self) -> (reason: Option<String>) {
        match self {
            TypeError::RedeclaredIdentifier(name) => Some(
                String::from_str("Identifier ").concat(name.as_str()).concat(" was redeclared."),
            ),
            TypeError::UndeclaredIdentifier(name) => Some(
                String::from_str("Identifier ").concat(name.as_str()).concat(
                    " was used before declaration.",
                ),
            ),
            TypeError::InvalidAssignment { name, was, new_type } => Some(
                String::from_str("Tried to assign <").concat(was.get_keyword()).concat(
                    "> to \"",
                ).concat(name.as_str()).concat("\", which is <").concat(
                    new_type.get_keyword(),
                ).concat(">."),
            ),
            _ => None,
        }
    }
}

/// The mathematical content of a result of the checker.
pub open spec fn checked<T>(result: Result<T, TypeError>) -> Result<T, SpecTypeError> {
    match result {
        Ok(value) => Ok(value),
        Err(error) => Err(error@),
    }
}

/// The state of the type checker: the scopes made so far.
#[derive(Debug)]
pub struct TypeCheckingContext(pub ScopeTree);

impl TypeCheckingContext {
    /// A checker that has seen nothing: only the empty global scope exists.
    pub fn new() -> (context: TypeCheckingContext)
        ensures
            context.0.well_formed(),
            context.0@ == seq![scope_tree::empty_scope(0)],
    {
        TypeCheckingContext(ScopeTree::new())
    }

    fn get_literal_type(&self, literal: &LiteralValue) -> (type_of: TypeName)
        ensures
            type_of == literal@.type_of(),
    {
        match *literal {
            LiteralValue::StringLiteral(_) => TypeName::StringType,
            LiteralValue::IntLiteral(_) => TypeName::IntType,
        }
    }

    fn evaluate_binary_expression_type(
        &self,
        scope: ScopeKey,
        params: &(Expression, Expression),
    ) -> (types: Result<(TypeName, TypeName), TypeError>)
        requires
            self.0.well_formed(),
            scope < self.0@.len(),
        ensures
            match typing::expression_type(scope_tree::visible(self.0@, scope as int), params.0@) {
                Err(error) => types is Err && types->Err_0@ == error,
                Ok(left) => match typing::expression_type(
                    scope_tree::visible(self.0@, scope as int),
                    params.1@,
                ) {
                    Err(error) => types is Err && types->Err_0@ == error,
                    Ok(right) => types == Ok::<_, TypeError>((left, right)),
                },
            },
        decreases params, 0int,
    {
        let left = match self.evaluate_expression_type(scope, &params.0) {
            Ok(left) => left,
            Err(error) => {
                return Err(error);
            },
        };
        let right = match self.evaluate_expression_type(scope, &params.1) {
            Ok(right) => right,
            Err(error) => {
                return Err(error);
            },
        };
        Ok((left, right))
    }

    fn evaluate_variable_type(&self, scope: ScopeKey, variable: &str) -> (type_of: Result<
        TypeName,
        TypeError,
    >)
        requires
            self.0.well_formed(),
            scope < self.0@.len(),
        ensures
            checked(type_of) == (if scope_tree::visible(self.0@, scope as int).contains_key(
                variable@,
            ) {
                Ok::<_, SpecTypeError>(
                    scope_tree::visible(self.0@, scope as int)[variable@].type_of,
                )
            } else {
                Err::<TypeName, _>(SpecTypeError::UndeclaredIdentifier(variable@))
            }),
    {
        match self.0.get_symbol(scope, variable) {
            Some(symbol) => Ok(symbol.type_of),
            None => Err(TypeError::UndeclaredIdentifier(String::from_str(variable))),
        }
    }

    /// The type of an expression with the names of `scope` in sight, or
    /// the first error in it.
    pub fn evaluate_expression_type(&self, scope: ScopeKey, expression: &Expression) -> (type_of:
        Result<TypeName, TypeError>)
        requires
            self.0.well_formed(),
            scope < self.0@.len(),
        ensures
            checked(type_of) == typing::expression_type(
                scope_tree::visible(self.0@, scope as int),
                expression@,
            ),
        decreases expression, 1int,
    {
        match expression {
            Expression::Literal(literal) => Ok(self.get_literal_type(literal)),
            Expression::Variable(variable) => self.evaluate_variable_type(
                scope,
                variable.as_str(),
            ),
            Expression::BinaryOp(op, params) => {
                let (left, right) = match self.evaluate_binary_expression_type(scope, &**params) {
                    Ok(types) => types,
                    Err(error) => {
                        return Err(error);
                    },
                };
                match binary_result(*op, left, right) {
                    Some(result) => Ok(result),
                    None => Err(TypeError::InvalidBinaryOp(*op, left, right)),
                }
            },
            Expression::UnaryOp(op, param) => {
                let inner = match self.evaluate_expression_type(scope, &**param) {
                    Ok(inner) => inner,
                    Err(error) => {
                        return Err(error);
                    },
                };
                match (*op, inner) {
                    (UnaryOperator::Not, TypeName::BoolType) => Ok(TypeName::BoolType),
                    (op, inner) => Err(TypeError::InvalidUnaryOp(op, inner)),
                }
            },
        }
    }

    fn assert_types_equal(expected: TypeName, is: TypeName) -> (same: Result<(), TypeError>)
        ensures
            checked(same) == (if expected == is {
                Ok::<_, SpecTypeError>(())
            } else {
                Err::<(), _>(SpecTypeError::IncompatibleTypes { expected, was: is })
            }),
    {
        if expected != is {
            Err(TypeError::IncompatibleTypes { expected, was: is })
        } else {
            Ok(())
        }
    }

    /// Checks that `expression` has the type `expected`.
    fn expect_type(&self, scope: ScopeKey, expression: &Expression, expected: TypeName) -> (same:
        Result<(), TypeError>)
        requires
            self.0.well_formed(),
            scope < self.0@.len(),
        ensures
            checked(same) == typing::expect_type(
                scope_tree::visible(self.0@, scope as int),
                expression@,
                expected,
            ),
    {
        match self.evaluate_expression_type(scope, expression) {
            Ok(was) => Self::assert_types_equal(expected, was),
            Err(error) => Err(error),
        }
    }

    fn set_variable_mutability(&mut self, scope: ScopeKey, name: &str, is_mutable: bool)
        requires
            old(self).0.well_formed(),
            scope < old(self).0@.len(),
            scope_tree::visible(old(self).0@, scope as int).contains_key(name@),
        ensures
            final(self).0.well_formed(),
            scope_tree::defining_scope(old(self).0@, scope as int, name@) is Some,
            final(self).0@ == scope_tree::with_binding(
                old(self).0@,
                scope_tree::defining_scope(old(self).0@, scope as int, name@)->0,
                name@,
                SpecSymbol {
                    is_mutable,
                    ..scope_tree::visible_symbols(old(self).0@, scope as int)[name@]
                },
            ),
    {
        proof {
            scope_tree::lemma_visible_defining(self.0@, scope as int, name@);
        }
        self.0.set_mutable(scope, name, is_mutable);
    }

    fn assert_mutable(&self, scope: ScopeKey, name: &str) -> (mutable: Result<(), TypeError>)
        requires
            self.0.well_formed(),
            scope < self.0@.len(),
            scope_tree::visible(self.0@, scope as int).contains_key(name@),
        ensures
            checked(mutable) == (if scope_tree::visible(self.0@, scope as int)[name@].is_mutable {
                Ok::<_, SpecTypeError>(())
            } else {
                Err::<(), _>(SpecTypeError::AssignToImmutable(name@))
            }),
    {
        match self.0.get_symbol(scope, name) {
            Some(symbol) => {
                if !symbol.is_mutable {
                    Err(TypeError::AssignToImmutable(String::from_str(name)))
                } else {
                    Ok(())
                }
            },
            None => Ok(()),
        }
    }

    /// Checks one statement in the scope `scope`.
    ///
    /// A declaration adds its name to that scope. A loop whose head passes
    /// the check adds a scope for its body under `scope`; while the body is
    /// checked the loop variable may not be assigned to, and afterwards it
    /// may again, whether the body passed or not.
    ///
    /// When the check succeeds, every scope that existed before is as it
    /// was, but for `scope` itself, which has the declared name after a
    /// declaration and a new child after a loop. When it fails, nothing is
    /// declared and nothing changed: the scopes are as they were, but that
    /// the scopes of a loop whose body failed have been added.
    pub fn type_check_statement(&mut self, scope: ScopeKey, statement: &Statement) -> (checked:
        Result<(), TypeError>)
        requires
            old(self).0.well_formed(),
            scope < old(self).0@.len(),
        ensures
            final(self).0.well_formed(),
            old(self).0@.len() <= final(self).0@.len(),
            match typing::check_statement(
                scope_tree::visible(old(self).0@, scope as int),
                statement@,
            ) {
                Ok(ctx) => checked is Ok && scope_tree::visible(final(self).0@, scope as int)
                    == ctx && unchanged_but(old(self).0@, final(self).0@, scope as int),
                Err(error) => checked is Err && checked->Err_0@ == error && kept_on_error(
                    old(self).0@,
                    final(self).0@,
                    scope as int,
                ) && (final(self).0@ == old(self).0@ || body_failed(
                    scope_tree::visible(old(self).0@, scope as int),
                    statement@,
                )),
            },
        decreases statement,
    {
        let ghost before = self.0@;
        let ghost ctx = scope_tree::visible(before, scope as int);
        proof {
            self.0.lemma_is_tree();
        }
        match statement {
            Statement::Declare { name, type_of, initial } => {
                if self.0.get_symbol(scope, name.as_str()).is_some() {
                    return Err(TypeError::RedeclaredIdentifier(name.clone()));
                }
                match initial {
                    Some(initial_value) => {
                        match self.expect_type(scope, initial_value, *type_of) {
                            Ok(()) => {},
                            Err(error) => {
                                return Err(error);
                            },
                        }
                    },
                    None => {},
                }
                let key = self.0.define_symbol(scope, name.as_str(), *type_of, true);
                proof {
                    scope_tree::lemma_visible_declare(
                        before,
                        scope as int,
                        name@,
                        SpecSymbol { key, scope_key: scope, type_of: *type_of, is_mutable: true },
                    );
                }
                Ok(())
            },
            Statement::Assign(name, value) => {
                let variable_type = match self.evaluate_variable_type(scope, name.as_str()) {
                    Ok(variable_type) => variable_type,
                    Err(error) => {
                        return Err(error);
                    },
                };
                match self.expect_type(scope, value, variable_type) {
                    Ok(()) => {},
                    Err(error) => {
                        return Err(error);
                    },
                }
                self.assert_mutable(scope, name.as_str())
            },
            Statement::Print(expr) => {
                match self.evaluate_expression_type(scope, expr) {
                    Ok(TypeName::BoolType) => Err(
                        TypeError::PrintArgumentError(TypeName::BoolType),
                    ),
                    Ok(_) => Ok(()),
                    Err(error) => Err(error),
                }
            },
            Statement::Read(name) => {
                match self.evaluate_variable_type(scope, name.as_str()) {
                    Ok(TypeName::BoolType) => Err(TypeError::ReadArgumentError(TypeName::BoolType)),
                    Ok(_) => Ok(()),
                    Err(error) => Err(error),
                }
            },
            Statement::Assert(expr) => {
                match self.evaluate_expression_type(scope, expr) {
                    Ok(TypeName::BoolType) => Ok(()),
                    Ok(other) => Err(TypeError::AssertArgumentError(other)),
                    Err(error) => Err(error),
                }
            },
            Statement::For { variable, from, to, run } => {
                match self.check_for_head(scope, variable.as_str(), from, to) {
                    Ok(()) => {},
                    Err(error) => {
                        return Err(error);
                    },
                }
                let inner_scope = self.0.add_new_scope(scope);
                let ghost entered = self.0@;
                proof {
                    scope_tree::lemma_visible_frame(before, entered, scope as int);
                    assert(scope_tree::visible_symbols(entered, inner_scope as int)
                        =~= scope_tree::visible_symbols(before, scope as int));
                    assert(scope_tree::visible(entered, inner_scope as int) =~= ctx);
                }
                let ghost home = scope_tree::defining_scope(
                    entered,
                    inner_scope as int,
                    variable@,
                )->0;
                let ghost found = scope_tree::visible_symbols(entered, inner_scope as int)[variable@];
                let ghost frozen = SpecSymbol { is_mutable: false, ..found };
                proof {
                    scope_tree::lemma_visible_defining(entered, inner_scope as int, variable@);
                    scope_tree::lemma_visible_rebind(
                        entered,
                        inner_scope as int,
                        variable@,
                        frozen,
                    );
                }
                self.set_variable_mutability(inner_scope, variable.as_str(), false);
                let ghost body_ctx = ctx.insert(variable@, frozen.info());
                let ghost frozen_tree = self.0@;
                proof {
                    scope_tree::lemma_defining_rebind(
                        entered,
                        inner_scope as int,
                        variable@,
                        frozen,
                    );
                }
                let checked = self.type_check_block(inner_scope, run, Ghost(body_ctx));
                let ghost after_body = self.0@;
                proof {
                    self.0.lemma_is_tree();
                    assert(body_ctx.contains_key(variable@));
                    lemma_defining_frame(
                        frozen_tree,
                        after_body,
                        inner_scope as int,
                        variable@,
                        home,
                    );
                    scope_tree::lemma_visible_defining(
                        after_body,
                        inner_scope as int,
                        variable@,
                    );
                }
                self.set_variable_mutability(inner_scope, variable.as_str(), true);
                proof {
                    let restored = self.0@;
                    assert(restored[home].symbols =~= before[home].symbols);
                    assert forall|j: int| 0 <= j < before.len() implies scope_tree::same_bindings(
                        #[trigger] before[j],
                        restored[j],
                    ) && (j != scope ==> restored[j] == before[j]) by {
                        if j == home {
                            assert(restored[j].symbols =~= before[j].symbols);
                        }
                    }
                    scope_tree::lemma_visible_frame(before, restored, scope as int);
                }
                checked
            },
        }
    }

    /// The checks on the head of a loop.
    fn check_for_head(&self, scope: ScopeKey, variable: &str, from: &Expression, to: &Expression)
        -> (checked: Result<(), TypeError>)
        requires
            self.0.well_formed(),
            scope < self.0@.len(),
        ensures
            self::checked(checked) == typing::check_for_head(
                scope_tree::visible(self.0@, scope as int),
                variable@,
                from@,
                to@,
            ),
    {
        let variable_type = match self.evaluate_variable_type(scope, variable) {
            Ok(variable_type) => variable_type,
            Err(error) => {
                return Err(error);
            },
        };
        match Self::assert_types_equal(TypeName::IntType, variable_type) {
            Ok(()) => {},
            Err(error) => {
                return Err(error);
            },
        }
        match self.assert_mutable(scope, variable) {
            Ok(()) => {},
            Err(error) => {
                return Err(error);
            },
        }
        match self.expect_type(scope, from, TypeName::IntType) {
            Ok(()) => {},
            Err(error) => {
                return Err(error);
            },
        }
        self.expect_type(scope, to, TypeName::IntType)
    }

    /// Checks the statements of the body of a loop in its scope `scope`,
    /// which sees the names in `entry` when the body begins and binds none
    /// of them itself, neither before nor after the check, whether it
    /// passes or not. No other scope that existed is changed.
    #[verifier::loop_isolation(false)]
    fn type_check_block(
        &mut self,
        scope: ScopeKey,
        block: &Vec<StatementWithCtx>,
        Ghost(entry): Ghost<Map<Seq<char>, SymbolInfo>>,
    ) -> (checked: Result<(), TypeError>)
        requires
            old(self).0.well_formed(),
            scope < old(self).0@.len(),
            scope_tree::visible(old(self).0@, scope as int) == entry,
            old(self).0@[scope as int].symbols == Map::<Seq<char>, SpecSymbol>::empty(),
        ensures
            final(self).0.well_formed(),
            old(self).0@.len() <= final(self).0@.len(),
            match typing::check_block(entry, ast::block_view(block@)) {
                Ok(_) => checked is Ok,
                Err(error) => checked is Err && checked->Err_0@ == error,
            },
            forall|j: int|
                0 <= j < old(self).0@.len() && j != scope ==> final(self).0@[j] == old(self).0@[j],
            final(self).0@[scope as int].parent == old(self).0@[scope as int].parent,
            forall|n: Seq<char>| #[trigger]
                entry.contains_key(n) ==> !final(self).0@[scope as int].symbols.contains_key(n),
        decreases block,
    {
        let ghost before = self.0@;
        let ghost all = ast::block_view(block@);
        proof {
            ast::lemma_block_view(block@);
        }
        let mut i: usize = 0;
        assert(all.subrange(0, all.len() as int) =~= all);
        while i < block.len()
            invariant
                i <= block.len(),
                all == ast::block_view(block@),
                all.len() == block@.len(),
                forall|j: int| 0 <= j < block@.len() ==> (#[trigger] all[j]) == block@[j]@,
                self.0.well_formed(),
                scope < before.len() <= self.0@.len(),
                typing::check_block(entry, all) == typing::check_block(
                    scope_tree::visible(self.0@, scope as int),
                    all.subrange(i as int, all.len() as int),
                ),
                forall|j: int| 0 <= j < before.len() && j != scope ==> self.0@[j] == before[j],
                self.0@[scope as int].parent == before[scope as int].parent,
                forall|n: Seq<char>| #[trigger]
                    entry.contains_key(n) ==> scope_tree::visible(
                        self.0@,
                        scope as int,
                    ).contains_key(n) && !self.0@[scope as int].symbols.contains_key(n),
            decreases block.len() - i,
        {
            let ghost here = self.0@;
            let ghost ctx = scope_tree::visible(here, scope as int);
            let ghost rest = all.subrange(i as int, all.len() as int);
            proof {
                assert(rest[0] == all[i as int]);
                assert(rest.subrange(1, rest.len() as int) =~= all.subrange(
                    i + 1,
                    all.len() as int,
                ));
                if typing::check_statement(ctx, block@[i as int]@.statement) is Ok {
                    typing::lemma_check_statement_extends(ctx, block@[i as int]@.statement);
                }
            }
            match self.type_check_statement(scope, &block[i].statement) {
                Ok(()) => {},
                Err(error) => {
                    return Err(error);
                },
            }
            proof {
                let now = self.0@;
                self.0.lemma_is_tree();
                lemma_own_names(here, now, scope as int);
            }
            i += 1;
        }
        Ok(())
    }
}

/// Whether the scopes after a successful check are the scopes before it:
/// every scope that existed is as it was, but that scope `k` may have new
/// names, none of which was in sight from it before.
pub open spec fn unchanged_but(before: Seq<SpecScope>, after: Seq<SpecScope>, k: int) -> bool {
    &&& before.len() <= after.len()
    &&& forall|j: int| 0 <= j < before.len() && j != k ==> after[j] == before[j]
    &&& after[k].parent == before[k].parent
    &&& forall|n: Seq<char>| #[trigger]
        after[k].symbols.contains_key(n) ==> before[k].symbols.contains_key(n)
            || !scope_tree::visible(before, k).contains_key(n)
}

/// Whether the scopes after a failed check are the scopes before it, but
/// that scopes may have been added: every scope that existed keeps its
/// parent and its bindings, and every one but `k`, which may have a new
/// child, is as it was.
pub open spec fn kept_on_error(before: Seq<SpecScope>, after: Seq<SpecScope>, k: int) -> bool {
    &&& before.len() <= after.len()
    &&& forall|j: int| 0 <= j < before.len() && j != k ==> after[j] == before[j]
    &&& scope_tree::same_bindings(before[k], after[k])
}

/// Whether the statement is a loop whose head passes the check with the
/// names in `ctx` in sight and whose body does not.
pub open spec fn body_failed(ctx: Map<Seq<char>, SymbolInfo>, statement: ast::SpecStatement) -> bool {
    &&& statement matches ast::SpecStatement::For { variable, from, to, run }
    &&& typing::check_for_head(ctx, variable, from, to) is Ok
    &&& typing::check_statement(ctx, statement) is Err
}

/// A name in sight from `k` that `k` does not bind itself stays so when
/// only the scopes from `k` on change and `k` gains no name in sight.
proof fn lemma_own_names(before: Seq<SpecScope>, after: Seq<SpecScope>, k: int)
    requires
        0 <= k < before.len(),
        scope_tree::is_tree(before),
        scope_tree::is_tree(after),
        unchanged_but(before, after, k),
    ensures
        forall|n: Seq<char>|
            scope_tree::visible(before, k).contains_key(n) && !before[k].symbols.contains_key(n)
                ==> !(#[trigger] after[k].symbols.contains_key(n)),
{
}

/// The scope that defines a name for `k` stays the same when the scopes
/// below `k` stay the same and `k` itself does not bind the name.
proof fn lemma_defining_frame(
    before: Seq<SpecScope>,
    after: Seq<SpecScope>,
    k: int,
    name: Seq<char>,
    home: int,
)
    requires
        0 < k < before.len() <= after.len(),
        scope_tree::is_tree(before),
        scope_tree::is_tree(after),
        forall|j: int| 0 <= j < k ==> after[j] == before[j],
        after[k].parent == before[k].parent,
        !before[k].symbols.contains_key(name),
        !after[k].symbols.contains_key(name),
        scope_tree::defining_scope(before, k, name) == Some(home),
    ensures
        scope_tree::defining_scope(after, k, name) == Some(home),
        home < k,
{
    lemma_defining_same(before, after, before[k].parent as int, name);
    scope_tree::lemma_visible_defining(before, before[k].parent as int, name);
}

/// The scope that defines a name for `k` depends only on the scopes up to
/// `k`.
proof fn lemma_defining_same(before: Seq<SpecScope>, after: Seq<SpecScope>, k: int, name: Seq<char>)
    requires
        0 <= k < before.len() <= after.len(),
        forall|j: int| 0 <= j <= k ==> after[j] == before[j],
    ensures
        scope_tree::defining_scope(after, k, name) == scope_tree::defining_scope(before, k, name),
    decreases k,
{
    if !before[k].symbols.contains_key(name) && 0 < k && before[k].parent < k {
        lemma_defining_same(before, after, before[k].parent as int, name);
    }
}

/// The type of `left op right`, where the operator takes such operands.
fn binary_result(op: BinaryOperator, left: TypeName, right: TypeName) -> (result: Option<TypeName>)
    ensures
        result == typing::binary_type(op, left, right),
{
    match (op, left, right) {
        (BinaryOperator::Add, TypeName::IntType, TypeName::IntType)
        | (BinaryOperator::Sub, TypeName::IntType, TypeName::IntType)
        | (BinaryOperator::Mul, TypeName::IntType, TypeName::IntType)
        | (BinaryOperator::Div, TypeName::IntType, TypeName::IntType) => Some(TypeName::IntType),
        (BinaryOperator::Add, TypeName::StringType, TypeName::StringType) => Some(
            TypeName::StringType,
        ),
        (BinaryOperator::Equal, x, y) => if x == y {
            Some(TypeName::BoolType)
        } else {
            None
        },
        (BinaryOperator::LessThan, x, y) => if x == y {
            Some(TypeName::BoolType)
        } else {
            None
        },
        (BinaryOperator::And, TypeName::BoolType, TypeName::BoolType) => Some(TypeName::BoolType),
        _ => None,
    }
}

/// Checks a whole program in a fresh global scope and stops at the first
/// error. On success the checker is returned, with every declared name of
/// the program's top level in its global scope.
pub fn type_check(program: &[StatementWithCtx]) -> (checked: Result<
    TypeCheckingContext,
    TypeError,
>)
    ensures
        match typing::check_program(ast::block_view(program@)) {
            Ok(ctx) => checked is Ok && checked->Ok_0.0.well_formed() && scope_tree::visible(
                checked->Ok_0.0@,
                0,
            ) == ctx,
            Err(error) => checked is Err && checked->Err_0@ == error,
        },
{
    let mut context = TypeCheckingContext::new();
    let global_scope_key = context.0.get_global_scope().key;
    let ghost all = ast::block_view(program@);
    proof {
        ast::lemma_block_view(program@);
        assert(all.subrange(0, all.len() as int) =~= all);
        assert(scope_tree::visible(context.0@, 0) =~= Map::empty());
    }
    let mut i: usize = 0;
    while i < program.len()
        invariant
            i <= program.len(),
            global_scope_key == 0,
            all == ast::block_view(program@),
            all.len() == program@.len(),
            forall|j: int| 0 <= j < program@.len() ==> (#[trigger] all[j]) == program@[j]@,
            context.0.well_formed(),
            context.0@.len() > 0,
            typing::check_program(all) == typing::check_block(
                scope_tree::visible(context.0@, 0),
                all.subrange(i as int, all.len() as int),
            ),
        decreases program.len() - i,
    {
        let ghost rest = all.subrange(i as int, all.len() as int);
        proof {
            assert(rest[0] == all[i as int]);
            assert(rest.subrange(1, rest.len() as int) =~= all.subrange(i + 1, all.len() as int));
        }
        match context.type_check_statement(global_scope_key, &program[i].statement) {
            Ok(()) => {},
            Err(error) => {
                return Err(error);
            },
        }
        i += 1;
    }
    Ok(context)
}

} // verus!
