//! The migration compiler: walks one migration's operation list in order and
//! renders, through the dialect layer, one atomic statement sequence per
//! migration; and the integration flow that resolves a whole set and compiles
//! every migration in apply order.

use vstd::prelude::*;

use crate::declaration::{Field, Migration, Operation};
use crate::resolver::{chain_order, graph_error_witness, resolvable, resolve, GraphError};
use crate::sql::{
    add_column_stmts, build_add_column, build_create_table, build_drop_column, build_drop_table,
    build_rename_column, build_rename_table, create_table_stmts, drop_column_stmt,
    drop_table_stmt, rename_column_stmt, rename_table_stmt, views_of, Dialect,
};

verus! {

/// The compiled, ordered sequence of DDL statements for one migration, to be
/// executed as a single atomic transaction.
#[derive(Debug)]
pub struct Script {
    /// The rendered statements, in execution order
    pub statements: Vec<String>,
}

impl View for Script {
    type V = Seq<Seq<char>>;

    open spec fn view(&self) -> Seq<Seq<char>> {
        views_of(self.statements@)
    }
}

/// A specific operation of a specific migration could not be rendered for the
/// selected dialect.
#[derive(Debug)]
pub struct CompileError {
    /// Id of the migration the operation belongs to
    pub migration_id: String,
    /// Position of the operation in the migration, counted from one
    pub operation_index: usize,
    /// The dialect layer's rejection reason
    pub cause: String,
}

/// The statements one operation compiles to, or the cause text it fails with.
/// A model without columns is rejected here: no dialect accepts a CREATE
/// TABLE with an empty column list.
pub open spec fn compile_op(d: Dialect, op: Operation) -> Result<Seq<Seq<char>>, Seq<char>> {
    match op {
        Operation::CreateModel { name, fields } => {
            if fields@.len() == 0 {
                Err("cannot create a model without fields"@)
            } else {
                create_table_stmts(d, name@, fields@)
            }
        },
        Operation::RenameModel { old, new } => Ok(seq![rename_table_stmt(d, old@, new@)]),
        Operation::DeleteModel { name } => Ok(seq![drop_table_stmt(d, name@)]),
        Operation::CreateField { model, field } => add_column_stmts(d, model@, field),
        Operation::RenameField { table_name, old, new } => Ok(
            seq![rename_column_stmt(d, table_name@, old@, new@)],
        ),
        Operation::DeleteField { model, name } => Ok(seq![drop_column_stmt(d, model@, name@)]),
    }
}

/// The statements a whole operation list compiles to, in list order, or the
/// position (counted from one) and cause of its first failing operation.
pub open spec fn compile_ops(d: Dialect, ops: Seq<Operation>) -> Result<
    Seq<Seq<char>>,
    (int, Seq<char>),
>
    decreases ops.len(),
{
    if ops.len() == 0 {
        Ok(Seq::empty())
    } else {
        match compile_op(d, ops[0]) {
            Err(c) => Err((1, c)),
            Ok(ss) => match compile_ops(d, ops.drop_first()) {
                Ok(rest) => Ok(ss + rest),
                Err((i, c)) => Err((i + 1, c)),
            },
        }
    }
}

/// Renders one operation through the dialect layer.
fn compile_one(d: &Dialect, op: &Operation) -> (r: Result<Vec<String>, String>)
    ensures
        r matches Ok(v) ==> compile_op(*d, *op) == Ok::<Seq<Seq<char>>, Seq<char>>(views_of(v@)),
        r matches Err(e) ==> compile_op(*d, *op) == Err::<Seq<Seq<char>>, Seq<char>>(e@),
{
    match op {
        Operation::CreateModel { name, fields } => {
            if fields.len() == 0 {
                Err("cannot create a model without fields".to_owned())
            } else {
                build_create_table(d, name, fields)
            }
        },
        Operation::RenameModel { old, new } => build_rename_table(d, old, new),
        Operation::DeleteModel { name } => {
            let stmt = build_drop_table(d, name);
            let mut v: Vec<String> = Vec::new();
            v.push(stmt);
            proof {
                assert(views_of(v@) =~= seq![drop_table_stmt(*d, name@)]);
            }
            Ok(v)
        },
        Operation::CreateField { model, field } => build_add_column(d, model, field),
        Operation::RenameField { table_name, old, new } => build_rename_column(
            d,
            table_name,
            old,
            new,
        ),
        Operation::DeleteField { model, name } => build_drop_column(d, model, name),
    }
}

/// Compiles one migration to a transaction script for the given dialect.
///
/// Every operation is rendered in list order into one script; the first
/// operation the dialect layer rejects discards the partial script and is
/// reported with the migration's id and the operation's position, counted
/// from one.
pub fn migration_to_sql(dialect: Dialect, migration: &Migration) -> (r: Result<
    Script,
    CompileError,
>)
    ensures
        r matches Ok(s) ==> compile_ops(dialect, migration.operations@) == Ok::<
            Seq<Seq<char>>,
            (int, Seq<char>),
        >(s@),
        r matches Err(e) ==> e.migration_id@ == migration.id@ && compile_ops(
            dialect,
            migration.operations@,
        ) == Err::<Seq<Seq<char>>, (int, Seq<char>)>((e.operation_index as int, e.cause@)) && 1
            <= e.operation_index <= migration.operations@.len(),
        (r is Ok) <==> (compile_ops(dialect, migration.operations@) is Ok),
{
    let ghost ops = migration.operations@;
    let mut statements: Vec<String> = Vec::new();
    let mut i: usize = 0;
    let n = migration.operations.len();
    proof {
        assert(ops.skip(0) =~= ops);
        if compile_ops(dialect, ops) is Ok {
            let rest = compile_ops(dialect, ops)->Ok_0;
            assert(views_of(Seq::<String>::empty()) + rest =~= rest);
        }
    }
    while i < n
        invariant
            i <= n,
            n == ops.len(),
            ops == migration.operations@,
            compile_ops(dialect, ops) == match compile_ops(dialect, ops.skip(i as int)) {
                Ok(rest) => Ok::<Seq<Seq<char>>, (int, Seq<char>)>(views_of(statements@) + rest),
                Err((k, c)) => Err::<Seq<Seq<char>>, (int, Seq<char>)>((k + i, c)),
            },
        decreases n - i,
    {
        proof {
            assert(ops.skip(i as int)[0] == ops[i as int]);
            assert(ops.skip(i as int).drop_first() =~= ops.skip(i as int + 1));
        }
        match compile_one(&dialect, &migration.operations[i]) {
            Ok(mut v) => {
                let ghost pre = statements@;
                let ghost add = v@;
                statements.append(&mut v);
                proof {
                    assert(statements@ == pre + add);
                    assert(views_of(pre + add) =~= views_of(pre) + views_of(add));
                    if compile_ops(dialect, ops.skip(i as int + 1)) is Ok {
                        let rest = compile_ops(dialect, ops.skip(i as int + 1))->Ok_0;
                        assert((views_of(pre) + views_of(add)) + rest =~= views_of(pre) + (
                        views_of(add) + rest));
                    }
                }
            },
            Err(cause) => {
                return Err(
                    CompileError {
                        migration_id: migration.id.clone(),
                        operation_index: i + 1,
                        cause,
                    },
                );
            },
        }
        i += 1;
    }
    proof {
        assert(ops.skip(n as int) =~= Seq::<Operation>::empty());
        assert(views_of(statements@) + Seq::<Seq<char>>::empty() =~= views_of(statements@));
    }
    Ok(Script { statements })
}

/// How compile failures across a migration set are handled.
#[derive(Clone, Copy, PartialEq, Eq, Structural, Debug)]
pub enum ErrorPolicy {
    /// Stop at the first migration that fails to compile.
    FailFast,
    /// Compile every migration and report all failures together.
    CollectAll,
}

/// Why `apply_all` produced no complete sequence of scripts.
#[derive(Debug)]
pub enum ApplyError {
    /// The set's dependency graph is not a single well-formed chain.
    Graph {
        /// The integrity violation the resolver found
        error: GraphError,
    },
    /// Some migrations could not be compiled for the dialect.
    Compile {
        /// The scripts of the migrations that did compile, in apply order
        scripts: Vec<Script>,
        /// The compile failures, in apply order
        errors: Vec<CompileError>,
    },
}

/// How many of the first `t` migrations of `o` compile successfully for `d`.
pub open spec fn ok_count(d: Dialect, o: Seq<Migration>, t: int) -> int
    decreases t,
{
    if t <= 0 {
        0
    } else {
        ok_count(d, o, t - 1) + (if compile_ops(d, o[t - 1].operations@) is Ok {
            1int
        } else {
            0int
        })
    }
}

/// Both the success count and the failure count grow with the prefix.
proof fn lemma_ok_count_mono(d: Dialect, o: Seq<Migration>, a: int, b: int)
    requires
        0 <= a <= b,
    ensures
        ok_count(d, o, a) <= ok_count(d, o, b),
        a - ok_count(d, o, a) <= b - ok_count(d, o, b),
    decreases b - a,
{
    if a < b {
        lemma_ok_count_mono(d, o, a, b - 1);
        assert(ok_count(d, o, b) == ok_count(d, o, b - 1) + (if compile_ops(
            d,
            o[b - 1].operations@,
        ) is Ok {
            1int
        } else {
            0int
        }));
    }
}

/// A prefix whose success count is its length compiles at every position.
proof fn lemma_ok_count_full(d: Dialect, o: Seq<Migration>, t: int)
    requires
        0 <= t,
        ok_count(d, o, t) == t,
    ensures
        forall|u: int|
            0 <= u < t ==> ok_count(d, o, u) == u && compile_ops(
                d,
                (#[trigger] o[u]).operations@,
            ) is Ok,
    decreases t,
{
    if t > 0 {
        lemma_ok_count_mono(d, o, 0, t - 1);
        assert(ok_count(d, o, t) == ok_count(d, o, t - 1) + (if compile_ops(
            d,
            o[t - 1].operations@,
        ) is Ok {
            1int
        } else {
            0int
        }));
        lemma_ok_count_full(d, o, t - 1);
    }
}

/// Compiles every migration of an already-resolved order, in order. Under
/// fail-fast the walk stops at the first rejected migration; under
/// collect-all every migration is tried and every failure recorded.
#[verifier::loop_isolation(false)]
#[verifier::rlimit(100)]
fn compile_in_order(dialect: Dialect, order: &Vec<Migration>, policy: ErrorPolicy) -> (r: (
    Vec<Script>,
    Vec<CompileError>,
))
    ensures
        r.1@.len() == 0 ==> r.0@.len() == order@.len() && forall|t: int|
            0 <= t < order@.len() ==> compile_ops(dialect, (#[trigger] order@[t]).operations@)
                == Ok::<Seq<Seq<char>>, (int, Seq<char>)>(r.0@[t]@),
        r.1@.len() > 0 ==> r.0@.len() + r.1@.len() <= order@.len(),
        policy is FailFast && r.1@.len() > 0 ==> r.1@.len() == 1 && r.0@.len() < order@.len() && (
        forall|t: int|
            0 <= t < r.0@.len() ==> compile_ops(dialect, (#[trigger] order@[t]).operations@)
                == Ok::<Seq<Seq<char>>, (int, Seq<char>)>(r.0@[t]@)) && compile_ops(
            dialect,
            order@[r.0@.len() as int].operations@,
        ) == Err::<Seq<Seq<char>>, (int, Seq<char>)>(
            (r.1@[0].operation_index as int, r.1@[0].cause@),
        ) && r.1@[0].migration_id@ == order@[r.0@.len() as int].id@,
        policy is CollectAll ==> r.0@.len() == ok_count(dialect, order@, order@.len() as int)
            && r.1@.len() == order@.len() - ok_count(dialect, order@, order@.len() as int) && (
        forall|t: int|
            0 <= t < order@.len() && compile_ops(dialect, (#[trigger] order@[t]).operations@) is Ok
                ==> r.0@[ok_count(dialect, order@, t)]@ == compile_ops(
                dialect,
                order@[t].operations@,
            )->Ok_0) && (forall|t: int|
            0 <= t < order@.len() && compile_ops(dialect, (#[trigger] order@[t]).operations@) is Err
                ==> r.1@[t - ok_count(dialect, order@, t)].migration_id@ == order@[t].id@
                && compile_ops(dialect, order@[t].operations@) == Err::<
                Seq<Seq<char>>,
                (int, Seq<char>),
            >(
                (
                    r.1@[t - ok_count(dialect, order@, t)].operation_index as int,
                    r.1@[t - ok_count(dialect, order@, t)].cause@,
                ),
            )),
{
    let ghost o = order@;
    let mut scripts: Vec<Script> = Vec::new();
    let mut errors: Vec<CompileError> = Vec::new();
    let mut i: usize = 0;
    let n = order.len();
    while i < n
        invariant
            i <= n,
            n == o.len(),
            scripts@.len() == ok_count(dialect, o, i as int),
            errors@.len() == i - ok_count(dialect, o, i as int),
            forall|t: int|
                0 <= t < i && compile_ops(dialect, (#[trigger] o[t]).operations@) is Ok
                    ==> scripts@[ok_count(dialect, o, t)]@ == compile_ops(
                    dialect,
                    o[t].operations@,
                )->Ok_0,
            forall|t: int|
                0 <= t < i && compile_ops(dialect, (#[trigger] o[t]).operations@) is Err
                    ==> errors@[t - ok_count(dialect, o, t)].migration_id@ == o[t].id@
                    && compile_ops(dialect, o[t].operations@) == Err::<
                    Seq<Seq<char>>,
                    (int, Seq<char>),
                >(
                    (
                        errors@[t - ok_count(dialect, o, t)].operation_index as int,
                        errors@[t - ok_count(dialect, o, t)].cause@,
                    ),
                ),
            policy is FailFast ==> errors@.len() == 0,
        decreases n - i,
    {
        proof {
            assert(ok_count(dialect, o, i as int + 1) == ok_count(dialect, o, i as int) + (
            if compile_ops(dialect, o[i as int].operations@) is Ok {
                1int
            } else {
                0int
            }));
            assert forall|t: int|
                0 <= t < i && compile_ops(dialect, (#[trigger] o[t]).operations@) is Ok implies 0
                <= ok_count(dialect, o, t) < scripts@.len() by {
                assert(ok_count(dialect, o, t + 1) == ok_count(dialect, o, t) + 1);
                lemma_ok_count_mono(dialect, o, 0, t);
                lemma_ok_count_mono(dialect, o, t + 1, i as int);
            }
            assert forall|t: int|
                0 <= t < i && compile_ops(dialect, (#[trigger] o[t]).operations@) is Err implies 0
                <= t - ok_count(dialect, o, t) < errors@.len() by {
                assert(ok_count(dialect, o, t + 1) == ok_count(dialect, o, t));
                lemma_ok_count_mono(dialect, o, 0, t);
                lemma_ok_count_mono(dialect, o, t + 1, i as int);
            }
        }
        match migration_to_sql(dialect, &order[i]) {
            Ok(script) => {
                scripts.push(script);
            },
            Err(e) => {
                errors.push(e);
                if matches!(policy, ErrorPolicy::FailFast) {
                    proof {
                        assert(errors@.len() == 1 && errors@[0] == e);
                        assert(ok_count(dialect, o, i as int) == i as int);
                        lemma_ok_count_full(dialect, o, i as int);
                        assert(scripts@.len() == i as int);
                        assert forall|t: int| 0 <= t < i implies compile_ops(
                            dialect,
                            (#[trigger] o[t]).operations@,
                        ) == Ok::<Seq<Seq<char>>, (int, Seq<char>)>(scripts@[t]@) by {
                            assert(ok_count(dialect, o, t) == t);
                        }
                    }
                    return (scripts, errors);
                }
            },
        }
        i += 1;
    }
    proof {
        if errors@.len() == 0 {
            assert(ok_count(dialect, o, n as int) == n as int);
            lemma_ok_count_full(dialect, o, n as int);
            assert forall|t: int| 0 <= t < n implies compile_ops(
                dialect,
                (#[trigger] o[t]).operations@,
            ) == Ok::<Seq<Seq<char>>, (int, Seq<char>)>(scripts@[t]@) by {
                assert(ok_count(dialect, o, t) == t);
            }
        } else {
            lemma_ok_count_mono(dialect, o, 0, n as int);
        }
    }
    (scripts, errors)
}

/// Resolves the set into its apply order, then compiles each migration in
/// that order, returning one script per migration. Fails fast on the first
/// resolver error; compile failures follow the chosen policy.
pub fn apply_all(dialect: Dialect, migrations: Vec<Migration>, policy: ErrorPolicy) -> (r: Result<
    Vec<Script>,
    ApplyError,
>)
    ensures
        r matches Ok(scripts) ==> exists|o: Seq<Migration>|
            {
                &&& #[trigger] chain_order(migrations@, o)
                &&& scripts@.len() == o.len()
                &&& forall|t: int|
                    0 <= t < o.len() ==> compile_ops(dialect, (#[trigger] o[t]).operations@)
                        == Ok::<Seq<Seq<char>>, (int, Seq<char>)>(scripts@[t]@)
            },
        r matches Ok(scripts) ==> resolvable(migrations@),
        r matches Err(ApplyError::Graph { error }) ==> graph_error_witness(migrations@, error)
            && !resolvable(migrations@),
        r matches Err(ApplyError::Compile { scripts, errors }) ==> errors@.len() >= 1
            && resolvable(migrations@) && exists|o: Seq<Migration>|
            {
                &&& #[trigger] chain_order(migrations@, o)
                &&& scripts@.len() + errors@.len() <= o.len()
                &&& policy is FailFast ==> errors@.len() == 1 && scripts@.len() < o.len() && (
                forall|t: int|
                    0 <= t < scripts@.len() ==> compile_ops(
                        dialect,
                        (#[trigger] o[t]).operations@,
                    ) == Ok::<Seq<Seq<char>>, (int, Seq<char>)>(scripts@[t]@)) && compile_ops(
                    dialect,
                    o[scripts@.len() as int].operations@,
                ) == Err::<Seq<Seq<char>>, (int, Seq<char>)>(
                    (errors@[0].operation_index as int, errors@[0].cause@),
                ) && errors@[0].migration_id@ == o[scripts@.len() as int].id@
                &&& policy is CollectAll ==> scripts@.len() == ok_count(
                    dialect,
                    o,
                    o.len() as int,
                ) && errors@.len() == o.len() - ok_count(dialect, o, o.len() as int) && (forall|
                    t: int,
                |
                    0 <= t < o.len() && compile_ops(dialect, (#[trigger] o[t]).operations@) is Ok
                        ==> scripts@[ok_count(dialect, o, t)]@ == compile_ops(
                        dialect,
                        o[t].operations@,
                    )->Ok_0) && (forall|t: int|
                    0 <= t < o.len() && compile_ops(dialect, (#[trigger] o[t]).operations@) is Err
                        ==> errors@[t - ok_count(dialect, o, t)].migration_id@ == o[t].id@
                        && compile_ops(dialect, o[t].operations@) == Err::<
                        Seq<Seq<char>>,
                        (int, Seq<char>),
                    >(
                        (
                            errors@[t - ok_count(dialect, o, t)].operation_index as int,
                            errors@[t - ok_count(dialect, o, t)].cause@,
                        ),
                    ))
            },
{
    let order = match resolve(migrations) {
        Ok(order) => order,
        Err(error) => {
            return Err(ApplyError::Graph { error });
        },
    };
    let ghost o = order@;
    let (scripts, errors) = compile_in_order(dialect, &order, policy);
    if errors.len() > 0 {
        proof {
            assert(chain_order(migrations@, o));
        }
        return Err(ApplyError::Compile { scripts, errors });
    }
    proof {
        assert(chain_order(migrations@, o));
    }
    Ok(scripts)
}

/// Compilation is deterministic: two results that both meet the compiler's
/// contract for one migration and one dialect are structurally identical
/// scripts, or the same failure.
pub proof fn compile_deterministic(
    d: Dialect,
    m: Migration,
    r1: Result<Script, CompileError>,
    r2: Result<Script, CompileError>,
)
    requires
        r1 matches Ok(s1) ==> compile_ops(d, m.operations@) == Ok::<Seq<Seq<char>>, (int, Seq<char>)>(s1@),
        r2 matches Ok(s2) ==> compile_ops(d, m.operations@) == Ok::<Seq<Seq<char>>, (int, Seq<char>)>(s2@),
        (r1 is Ok) <==> (compile_ops(d, m.operations@) is Ok),
        (r2 is Ok) <==> (compile_ops(d, m.operations@) is Ok),
    ensures
        (r1 is Ok) <==> (r2 is Ok),
        r1 is Ok && r2 is Ok ==> r1->Ok_0@ == r2->Ok_0@,
{
}

/// A migration holding one CreateModel with its fields compiles to exactly
/// the statements the dialect renders for that one CREATE TABLE, handed the
/// fields in their listed order; the dialect's rejection, if any, is reported
/// at position one.
pub proof fn create_model_script(d: Dialect, m: Migration, name: String, fields: Vec<Field>)
    requires
        m.operations@ == seq![Operation::CreateModel { name, fields }],
        fields@.len() > 0,
    ensures
        compile_ops(d, m.operations@) == match create_table_stmts(d, name@, fields@) {
            Ok(ss) => Ok::<Seq<Seq<char>>, (int, Seq<char>)>(ss),
            Err(c) => Err::<Seq<Seq<char>>, (int, Seq<char>)>((1, c)),
        },
{
    let ops = m.operations@;
    assert(ops[0] == Operation::CreateModel { name, fields });
    assert(compile_op(d, ops[0]) == create_table_stmts(d, name@, fields@));
    assert(ops.drop_first() =~= Seq::<Operation>::empty());
    assert(compile_ops(d, Seq::<Operation>::empty()) == Ok::<Seq<Seq<char>>, (int, Seq<char>)>(
        Seq::<Seq<char>>::empty(),
    ));
    if create_table_stmts(d, name@, fields@) is Ok {
        let ss = create_table_stmts(d, name@, fields@)->Ok_0;
        assert(ss + Seq::<Seq<char>>::empty() =~= ss);
        assert(compile_ops(d, ops) == Ok::<Seq<Seq<char>>, (int, Seq<char>)>(ss));
    }
}

} // verus!
