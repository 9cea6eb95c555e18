//! How the resolver's scopes and the interpreter's environments fit
//! together: where the chain of environments has a frame for every scope
//! that the resolver had open, a lookup at the slot's distance reads the
//! frame of the scope that the resolver found the name in. The transitions
//! that open a scope at run time (a block, a call, the binding of a method,
//! a class with a superclass) make that frame, and no transition removes a
//! frame or a binding.
use crate::env::{EnvModel, ancestor, bind_in, frame_at, get_at_model};
use crate::error::ErrorModel;
use crate::expr::ExprModel;
use crate::heap::with_envs;
use crate::lox_function::this_frame;
use crate::lox_value::ValueModel;
use crate::machine::{
    ControlModel, FrameModel, MachineModel, bind_params, eval_model, proceed, resume_model,
    super_frame, with_heap,
};
use crate::resolver::{
    ResolverModel, Scopes, begin_scope_model, declare_model, declare_params_model, define_model,
    depth_of, in_own_initializer, mark, resolve_expr_model,
};
use crate::token::TokenModel;
use vstd::prelude::*;

verus! {

/// Whether the chain of environments from `env` has one frame for each of
/// the scopes, innermost first, and each frame binds every name that its
/// scope holds as ready for use.
pub open spec fn covers(envs: Seq<EnvModel>, env: usize, scopes: Scopes) -> bool
    decreases scopes.len(),
{
    if scopes.len() == 0 {
        true
    } else {
        &&& env < envs.len()
        &&& forall|name: Seq<char>|
            scopes.last().contains_key(name) && scopes.last()[name]
                ==> #[trigger] envs[env as int].values.contains_key(name)
        &&& match envs[env as int].enclosing {
            Some(p) => covers(envs, p, scopes.drop_last()),
            None => scopes.len() == 1,
        }
    }
}

/// Whether `after` holds every frame of `before` with the same enclosing
/// frame and at least the same names bound.
pub open spec fn extends(before: Seq<EnvModel>, after: Seq<EnvModel>) -> bool {
    &&& before.len() <= after.len()
    &&& forall|i: int|
        0 <= i < before.len() ==> (#[trigger] after[i]).enclosing == before[i].enclosing
    &&& forall|i: int, name: Seq<char>|
        0 <= i < before.len() && before[i].values.contains_key(name) ==> (#[trigger] after[i].values.contains_key(
            name,
        ))
}

/// Frames that are added and bindings that are written leave every cover
/// in place.
pub proof fn lemma_covers_extends(
    before: Seq<EnvModel>,
    after: Seq<EnvModel>,
    env: usize,
    scopes: Scopes,
)
    requires
        covers(before, env, scopes),
        extends(before, after),
    ensures
        covers(after, env, scopes),
    decreases scopes.len(),
{
    if scopes.len() > 0 {
        assert(after[env as int].enclosing == before[env as int].enclosing);
        assert forall|name: Seq<char>|
            scopes.last().contains_key(name) && scopes.last()[name] implies #[trigger] after[env as int].values.contains_key(
            name,
        ) by {
            assert(before[env as int].values.contains_key(name));
        }
        match before[env as int].enclosing {
            Some(p) => {
                lemma_covers_extends(before, after, p, scopes.drop_last());
            },
            None => {},
        }
    }
}

/// Depth correctness of a lookup: where the environments cover the scopes
/// and the resolver found `name` at depth `d`, ready for use, the frame `d`
/// hops from the current environment exists, binds `name`, and is the frame
/// of the scope at that depth: it covers that scope and the scopes around
/// it. The lookup at distance `d` reads that binding and no other.
pub proof fn a_lookup_reads_the_frame_of_the_declaring_scope(
    envs: Seq<EnvModel>,
    env: usize,
    scopes: Scopes,
    name: Seq<char>,
    d: nat,
)
    requires
        covers(envs, env, scopes),
        depth_of(scopes, name) == Some(d),
        scopes[scopes.len() - 1 - d][name],
        d <= i32::MAX,
    ensures
        ancestor(envs, env, d) matches Some(f) && covers(
            envs,
            f,
            scopes.take(scopes.len() - d),
        ) && envs[f as int].values.contains_key(name) && frame_at(envs, env, name, d as i32)
            == Some(f) && get_at_model(envs, env, name, d as i32) == Some(
            envs[f as int].values[name],
        ),
    decreases d,
{
    crate::resolver::lemma_depth_of(scopes, name);
    if d == 0 {
        assert(scopes.take(scopes.len() - 0) =~= scopes);
    } else {
        let rest = scopes.drop_last();
        let p = envs[env as int].enclosing->Some_0;
        assert(rest[rest.len() - 1 - (d - 1)] == scopes[scopes.len() - 1 - d]);
        a_lookup_reads_the_frame_of_the_declaring_scope(envs, p, rest, name, (d - 1) as nat);
        assert(rest.take(rest.len() - (d - 1)) =~= scopes.take(scopes.len() - d));
    }
}

/// The resolver gives no slot to a use of a name inside the name's own
/// initializer, so a name that gets a slot at depth 0 is ready for use.
pub proof fn a_name_with_a_slot_in_the_innermost_scope_is_ready(scopes: Scopes, name: Seq<char>)
    requires
        depth_of(scopes, name) == Some(0nat),
        !in_own_initializer(scopes, name),
    ensures
        scopes[scopes.len() - 1][name],
{
}

/// Entering a block: the new environment, enclosed by the current one,
/// covers the scopes with the block's empty scope on top.
pub proof fn a_block_opens_a_frame_for_its_scope(envs: Seq<EnvModel>, env: usize, r: ResolverModel)
    requires
        covers(envs, env, r.scopes),
        env < envs.len(),
        envs.len() <= usize::MAX,
    ensures
        covers(
            envs.push(EnvModel { values: Map::empty(), enclosing: Some(env) }),
            envs.len() as usize,
            begin_scope_model(r).scopes,
        ),
{
    let after = envs.push(EnvModel { values: Map::empty(), enclosing: Some(env) });
    lemma_covers_extends(envs, after, env, r.scopes);
    assert(begin_scope_model(r).scopes.drop_last() =~= r.scopes);
}

/// Defining a variable: once the interpreter has bound `name` in the
/// current environment, the environments cover the scopes in which the
/// resolver has marked `name` as ready.
pub proof fn a_definition_binds_what_the_resolver_defines(
    envs: Seq<EnvModel>,
    env: usize,
    r: ResolverModel,
    name: TokenModel,
    v: ValueModel,
)
    requires
        covers(envs, env, r.scopes),
        env < envs.len(),
    ensures
        covers(bind_in(envs, env, name.lexeme, v), env, define_model(r, name).scopes),
        declare_model(r, name) matches Ok(declared) ==> covers(envs, env, declared.scopes)
            && covers(
            bind_in(envs, env, name.lexeme, v),
            env,
            define_model(declared, name).scopes,
        ),
{
    let after = bind_in(envs, env, name.lexeme, v);
    lemma_covers_extends(envs, after, env, r.scopes);
    if r.scopes.len() > 0 {
        let defined = define_model(r, name).scopes;
        assert(defined.drop_last() =~= r.scopes.drop_last());
        match declare_model(r, name) {
            Ok(declared) => {
                assert(declared.scopes.drop_last() =~= r.scopes.drop_last());
                assert(define_model(declared, name).scopes.drop_last() =~= r.scopes.drop_last());
                assert(covers(envs, env, declared.scopes));
                lemma_covers_extends(envs, after, env, declared.scopes);
            },
            Err(_) => {},
        }
    }
}

/// The scope that the resolver has after it has declared and defined the
/// parameters of a function holds exactly the parameters, all ready.
pub proof fn lemma_declared_params(r: ResolverModel, params: Seq<TokenModel>)
    requires
        r.scopes.len() > 0,
    ensures
        declare_params_model(r, params) matches Ok(after) ==> {
            &&& after.scopes.len() == r.scopes.len()
            &&& after.scopes.drop_last() == r.scopes.drop_last()
            &&& forall|name: Seq<char>| #[trigger]
                after.scopes.last().contains_key(name) ==> r.scopes.last().contains_key(name)
                    || exists|i: int| 0 <= i < params.len() && params[i].lexeme == name
        },
    decreases params.len(),
{
    if params.len() > 0 {
        lemma_declared_params(r, params.drop_last());
        match declare_params_model(r, params.drop_last()) {
            Ok(r1) => {
                match declare_model(r1, params.last()) {
                    Ok(r2) => {
                        let after = define_model(r2, params.last());
                        assert(after.scopes.drop_last() =~= r.scopes.drop_last());
                        assert forall|name: Seq<char>| #[trigger]
                            after.scopes.last().contains_key(
                                name,
                            ) implies r.scopes.last().contains_key(name) || exists|i: int|
                            0 <= i < params.len() && params[i].lexeme == name by {
                            if name == params.last().lexeme {
                                assert(params[params.len() - 1].lexeme == name);
                            } else {
                                assert(r1.scopes.last().contains_key(name));
                                if !r.scopes.last().contains_key(name) {
                                    let i = choose|i: int|
                                        0 <= i < params.drop_last().len() && params.drop_last()[i].lexeme
                                            == name;
                                    assert(params[i].lexeme == name);
                                }
                            }
                        }
                    },
                    Err(_) => {},
                }
            },
            Err(_) => {},
        }
    }
}

/// Every parameter is bound by a call that has as many arguments.
pub proof fn lemma_bound_params(params: Seq<TokenModel>, args: Seq<ValueModel>, i: int)
    requires
        params.len() <= args.len(),
        0 <= i < params.len(),
    ensures
        bind_params(params, args).contains_key(params[i].lexeme),
    decreases params.len(),
{
    if i < params.len() - 1 {
        lemma_bound_params(params.drop_last(), args, i);
    }
}

/// Entering a function: where the function's closure covers the scopes in
/// which the declaration was resolved, the environment of the call covers
/// the scopes in which the body was resolved: those scopes and the scope of
/// the parameters on top.
pub proof fn a_call_opens_a_frame_for_the_parameters(
    envs: Seq<EnvModel>,
    closure: usize,
    r: ResolverModel,
    params: Seq<TokenModel>,
    args: Seq<ValueModel>,
)
    requires
        covers(envs, closure, r.scopes),
        closure < envs.len(),
        envs.len() <= usize::MAX,
        params.len() == args.len(),
    ensures
        declare_params_model(begin_scope_model(r), params) matches Ok(body) ==> covers(
            envs.push(EnvModel { values: bind_params(params, args), enclosing: Some(closure) }),
            envs.len() as usize,
            body.scopes,
        ),
{
    let frame = EnvModel { values: bind_params(params, args), enclosing: Some(closure) };
    let after = envs.push(frame);
    lemma_covers_extends(envs, after, closure, r.scopes);
    lemma_declared_params(begin_scope_model(r), params);
    match declare_params_model(begin_scope_model(r), params) {
        Ok(body) => {
            assert(begin_scope_model(r).scopes.drop_last() =~= r.scopes);
            assert forall|name: Seq<char>|
                body.scopes.last().contains_key(name)
                    && body.scopes.last()[name] implies #[trigger] frame.values.contains_key(
                name,
            ) by {
                assert(!begin_scope_model(r).scopes.last().contains_key(name));
                let i = choose|i: int| 0 <= i < params.len() && params[i].lexeme == name;
                lemma_bound_params(params, args, i);
            }
        },
        Err(_) => {},
    }
}

/// Binding a method: where the method's closure covers the scopes around
/// the class body, the frame that binds `this` covers those scopes and the
/// scope of `this` on top, in which the resolver resolved the method.
pub proof fn a_bound_method_has_a_frame_for_this(
    envs: Seq<EnvModel>,
    closure: usize,
    scopes: Scopes,
    instance: ValueModel,
)
    requires
        covers(envs, closure, scopes),
        closure < envs.len(),
        envs.len() <= usize::MAX,
    ensures
        covers(
            envs.push(this_frame(closure, instance)),
            envs.len() as usize,
            mark(scopes.push(Map::empty()), "this"@, true),
        ),
{
    let after = envs.push(this_frame(closure, instance));
    lemma_covers_extends(envs, after, closure, scopes);
    assert(mark(scopes.push(Map::empty()), "this"@, true).drop_last() =~= scopes);
}

/// Declaring a subclass: where the current environment covers the scopes
/// around the class, the frame that binds `super` covers those scopes and
/// the scope of `super` on top.
pub proof fn a_subclass_has_a_frame_for_super(
    envs: Seq<EnvModel>,
    env: usize,
    scopes: Scopes,
    superclass: usize,
)
    requires
        covers(envs, env, scopes),
        env < envs.len(),
        envs.len() <= usize::MAX,
    ensures
        covers(
            envs.push(super_frame(env, superclass)),
            envs.len() as usize,
            mark(scopes.push(Map::empty()), "super"@, true),
        ),
{
    let after = envs.push(super_frame(env, superclass));
    lemma_covers_extends(envs, after, env, scopes);
    assert(mark(scopes.push(Map::empty()), "super"@, true).drop_last() =~= scopes);
}

/// `this` stands one hop nearer than `super`: in the scopes of a method of
/// a subclass, where `super` is found at depth `d`, `this` is found at
/// depth `d - 1`.
pub proof fn this_is_one_hop_nearer_than_super(around: Scopes, inner: Scopes)
    requires
        forall|j: int| 0 <= j < inner.len() ==> !(#[trigger] inner[j]).contains_key("this"@) && !inner[j].contains_key(
            "super"@,
        ),
    ensures
        ({
            let class_body = mark(
                mark(around.push(Map::empty()), "super"@, true).push(Map::empty()),
                "this"@,
                true,
            );
            &&& depth_of(class_body + inner, "this"@) == Some(inner.len())
            &&& depth_of(class_body + inner, "super"@) == Some(inner.len() + 1)
        }),
    decreases inner.len(),
{
    reveal_strlit("this");
    reveal_strlit("super");
    let class_body = mark(
        mark(around.push(Map::empty()), "super"@, true).push(Map::empty()),
        "this"@,
        true,
    );
    assert("this"@ != "super"@) by {
        assert("this"@.len() == 4);
        assert("super"@.len() == 5);
    }
    if inner.len() == 0 {
        assert(class_body + inner =~= class_body);
        let below = class_body.drop_last();
        assert(below =~= mark(around.push(Map::empty()), "super"@, true));
        assert(below.last().contains_key("super"@));
        assert(depth_of(below, "super"@) == Some(0nat));
        assert(!class_body.last().contains_key("super"@));
        assert(class_body.last().contains_key("this"@));
        assert(depth_of(class_body, "this"@) == Some(0nat));
        assert(depth_of(class_body, "super"@) == Some(1nat));
    } else {
        this_is_one_hop_nearer_than_super(around, inner.drop_last());
        let all = class_body + inner;
        assert(all.drop_last() =~= class_body + inner.drop_last());
        assert(all.last() == inner[inner.len() - 1]);
        assert(!all.last().contains_key("this"@));
        assert(!all.last().contains_key("super"@));
        assert(depth_of(all, "this"@) == Some(inner.len()));
        assert(depth_of(all, "super"@) == Some(inner.len() + 1));
    }
}


/// Whether every name in every scope but the innermost is ready for use,
/// as it is wherever an expression is resolved.
pub open spec fn settled(scopes: Scopes) -> bool {
    forall|j: int, name: Seq<char>|
        0 <= j < scopes.len() - 1 && (#[trigger] scopes[j].contains_key(name)) ==> scopes[j][name]
}

/// Depth correctness of a variable use: where the environments cover the
/// scopes in which the resolver resolved the use, and the resolver gave it
/// a slot `d >= 0`, the evaluation of the use does not fail: it yields what
/// `name` is bound to in the frame `d` hops from the current environment,
/// and that frame is the frame of the innermost scope that declares `name`.
pub proof fn a_resolved_variable_is_found(
    m: MachineModel,
    r: ResolverModel,
    name: TokenModel,
    before: i32,
    d: i32,
)
    requires
        covers(m.heap.envs, m.env, r.scopes),
        settled(r.scopes),
        resolve_expr_model(r, ExprModel::Variable(name, before)) == Ok::<ExprModel, ErrorModel>(
            ExprModel::Variable(name, d),
        ),
        d >= 0,
    ensures
        ancestor(m.heap.envs, m.env, d as nat) matches Some(f) && eval_model(
            m,
            ExprModel::Variable(name, d),
        ) == proceed(m, ControlModel::Value(m.heap.envs[f as int].values[name.lexeme])) && covers(
            m.heap.envs,
            f,
            r.scopes.take(r.scopes.len() - d),
        ) && r.scopes[r.scopes.len() - 1 - d].contains_key(name.lexeme),
{
    crate::resolver::lemma_depth_of(r.scopes, name.lexeme);
    a_lookup_reads_the_frame_of_the_declaring_scope(
        m.heap.envs,
        m.env,
        r.scopes,
        name.lexeme,
        d as nat,
    );
}

/// Depth correctness of an assignment: where the environments cover the
/// scopes in which the resolver resolved the assignment, the resolver gave
/// it a slot `d >= 0`, and the name is ready, the assigned value is written
/// to the frame `d` hops from the current environment, which is the frame
/// of the innermost scope that declares `name`, and to no other.
pub proof fn a_resolved_assignment_is_written(
    m: MachineModel,
    r: ResolverModel,
    name: TokenModel,
    d: i32,
    v: ValueModel,
)
    requires
        covers(m.heap.envs, m.env, r.scopes),
        crate::resolver::slot_model(r.scopes, name) == Ok::<i32, ErrorModel>(d),
        d >= 0,
        r.scopes[r.scopes.len() - 1 - d][name.lexeme],
    ensures
        ancestor(m.heap.envs, m.env, d as nat) matches Some(f) && resume_model(
            m,
            FrameModel::Assign(name, d),
            v,
        ) == proceed(
            with_heap(m, with_envs(m.heap, bind_in(m.heap.envs, f, name.lexeme, v))),
            ControlModel::Value(v),
        ) && covers(m.heap.envs, f, r.scopes.take(r.scopes.len() - d)),
{
    crate::resolver::lemma_depth_of(r.scopes, name.lexeme);
    a_lookup_reads_the_frame_of_the_declaring_scope(
        m.heap.envs,
        m.env,
        r.scopes,
        name.lexeme,
        d as nat,
    );
}

/// A use that the resolver leaves global, with slot `-1`, is looked up from
/// the environment of the globals, whatever the current environment is.
pub proof fn a_global_is_looked_up_from_the_globals(m: MachineModel, name: TokenModel, env: usize)
    ensures
        eval_model(m, ExprModel::Variable(name, -1i32)) == (match crate::env::get_model(
            m.heap.envs,
            m.globals,
            name.lexeme,
        ) {
            Some(v) => proceed(m, ControlModel::Value(v)),
            None => crate::machine::fail(m, crate::machine::undefined_variable(name)),
        }),
        eval_model(crate::machine::in_env(m, env), ExprModel::Variable(name, -1i32)).1
            == eval_model(m, ExprModel::Variable(name, -1i32)).1,
{
}

} // verus!
