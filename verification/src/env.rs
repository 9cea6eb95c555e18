//! Environments: frames of name-to-value bindings, each with a reference to
//! the frame that encloses it. All frames live in one list and name each
//! other by index, so that every closure that captured a frame sees what is
//! written to it.
use crate::lox_value::{LoxValue, ValueModel};
use crate::table::Table;
use vstd::prelude::*;

verus! {

/// One frame of bindings.
pub struct Env {
    pub values: Table<LoxValue>,
    pub enclosing: Option<usize>,
}

/// The mathematical content of [`Env`].
pub struct EnvModel {
    pub values: Map<Seq<char>, ValueModel>,
    pub enclosing: Option<usize>,
}

impl View for Env {
    type V = EnvModel;

    open spec fn view(&self) -> EnvModel {
        EnvModel { values: self.values@, enclosing: self.enclosing }
    }
}

/// The views of a list of frames.
pub open spec fn envs_model(envs: Seq<Env>) -> Seq<EnvModel> {
    Seq::new(envs.len(), |i: int| envs[i]@)
}

/// The frame reached from `id` by exactly `distance` hops along the
/// enclosing references; `None` where the chain is shorter.
pub open spec fn ancestor(envs: Seq<EnvModel>, id: usize, distance: nat) -> Option<usize>
    decreases distance,
{
    if id >= envs.len() {
        None
    } else if distance == 0 {
        Some(id)
    } else {
        match envs[id as int].enclosing {
            Some(p) => ancestor(envs, p, (distance - 1) as nat),
            None => None,
        }
    }
}

/// The nearest frame that binds `name`, searching `id` and then the frames
/// that enclose it. A frame is always created after the one it encloses, and
/// the search follows only such references.
pub open spec fn frame_of(envs: Seq<EnvModel>, id: usize, name: Seq<char>) -> Option<usize>
    decreases id,
{
    if id >= envs.len() {
        None
    } else if envs[id as int].values.contains_key(name) {
        Some(id)
    } else {
        match envs[id as int].enclosing {
            Some(p) => if p < id {
                frame_of(envs, p, name)
            } else {
                None
            },
            None => None,
        }
    }
}

/// What `name` is bound to directly in frame `id`.
pub open spec fn local(envs: Seq<EnvModel>, id: usize, name: Seq<char>) -> Option<ValueModel> {
    if id < envs.len() && envs[id as int].values.contains_key(name) {
        Some(envs[id as int].values[name])
    } else {
        None
    }
}

/// Chain lookup: the binding of `name` in the nearest frame that has one.
pub open spec fn get_model(envs: Seq<EnvModel>, id: usize, name: Seq<char>) -> Option<ValueModel> {
    match frame_of(envs, id, name) {
        Some(f) => Some(envs[f as int].values[name]),
        None => None,
    }
}

/// The frame exactly `distance` hops from `id`, if it binds `name`.
pub open spec fn frame_at(envs: Seq<EnvModel>, id: usize, name: Seq<char>, distance: i32) -> Option<
    usize,
> {
    if distance < 0 {
        None
    } else {
        match ancestor(envs, id, distance as nat) {
            Some(f) => if envs[f as int].values.contains_key(name) {
                Some(f)
            } else {
                None
            },
            None => None,
        }
    }
}

/// Lookup at a known depth: the binding of `name` in the frame exactly
/// `distance` hops from `id`, with no search.
pub open spec fn get_at_model(
    envs: Seq<EnvModel>,
    id: usize,
    name: Seq<char>,
    distance: i32,
) -> Option<ValueModel> {
    match frame_at(envs, id, name, distance) {
        Some(f) => Some(envs[f as int].values[name]),
        None => None,
    }
}

/// The frames after `name` is bound to `v` in frame `f`.
pub open spec fn bind_in(envs: Seq<EnvModel>, f: usize, name: Seq<char>, v: ValueModel) -> Seq<
    EnvModel,
> {
    if f < envs.len() {
        envs.update(
            f as int,
            EnvModel {
                values: envs[f as int].values.insert(name, v),
                enclosing: envs[f as int].enclosing,
            },
        )
    } else {
        envs
    }
}

/// The frames after a write to the frame `target`, or unchanged where there
/// is no frame to write to: an assignment never creates a binding.
pub open spec fn written(
    envs: Seq<EnvModel>,
    target: Option<usize>,
    name: Seq<char>,
    v: ValueModel,
) -> Seq<EnvModel> {
    match target {
        Some(f) => bind_in(envs, f, name, v),
        None => envs,
    }
}

/// The value that a write to the frame `target` replaces.
pub open spec fn replaced(envs: Seq<EnvModel>, target: Option<usize>, name: Seq<char>) -> Option<
    ValueModel,
> {
    match target {
        Some(f) => local(envs, f, name),
        None => None,
    }
}

/// The view of an optional value.
pub open spec fn value_option(v: Option<LoxValue>) -> Option<ValueModel> {
    match v {
        Some(v) => Some(v@),
        None => None,
    }
}

proof fn lemma_bind_in(envs: Seq<Env>, after: Seq<Env>, f: usize, name: Seq<char>, v: ValueModel)
    requires
        f < envs.len(),
        after.len() == envs.len(),
        forall|i: int| 0 <= i < envs.len() && i != f ==> after[i] == envs[i],
        after[f as int]@ == (EnvModel {
            values: envs[f as int]@.values.insert(name, v),
            enclosing: envs[f as int]@.enclosing,
        }),
    ensures
        envs_model(after) == bind_in(envs_model(envs), f, name, v),
{
    assert(envs_model(after) =~= bind_in(envs_model(envs), f, name, v));
}

impl Env {
    /// A frame with no bindings and no enclosing frame.
    pub fn new() -> (e: Env)
        ensures
            e@ == (EnvModel { values: Map::empty(), enclosing: None }),
    {
        Env { values: Table::new(), enclosing: None }
    }

    /// Binds `k` to `v` in this frame, whether or not it was bound before,
    /// and returns what it was bound to.
    pub fn define(&mut self, k: String, v: LoxValue) -> (r: Option<LoxValue>)
        ensures
            final(self)@ == (EnvModel {
                values: old(self)@.values.insert(k@, v@),
                enclosing: old(self)@.enclosing,
            }),
            value_option(r) == (if old(self)@.values.contains_key(k@) {
                Some(old(self)@.values[k@])
            } else {
                None
            }),
    {
        let previous = match self.values.get(&k) {
            Some(p) => Some(p.duplicate()),
            None => None,
        };
        self.values.insert(k, v);
        previous
    }

    /// The frame exactly `distance` hops from `id`.
    pub fn ancestor_of(envs: &Vec<Env>, id: usize, distance: usize) -> (r: Option<usize>)
        ensures
            r == ancestor(envs_model(envs@), id, distance as nat),
            r matches Some(f) ==> f < envs.len(),
    {
        let mut cur = id;
        let mut left = distance;
        loop
            invariant
                ancestor(envs_model(envs@), cur, left as nat) == ancestor(
                    envs_model(envs@),
                    id,
                    distance as nat,
                ),
            decreases left,
        {
            if cur >= envs.len() {
                return None;
            }
            if left == 0 {
                return Some(cur);
            }
            match envs[cur].enclosing {
                Some(p) => {
                    cur = p;
                    left -= 1;
                },
                None => {
                    return None;
                },
            }
        }
    }

    /// The nearest frame on the chain from `id` that binds `k`.
    pub fn find(envs: &Vec<Env>, id: usize, k: &String) -> (r: Option<usize>)
        ensures
            r == frame_of(envs_model(envs@), id, k@),
            r matches Some(f) ==> f < envs.len() && envs@[f as int]@.values.contains_key(k@),
    {
        let mut cur = id;
        loop
            invariant
                frame_of(envs_model(envs@), cur, k@) == frame_of(envs_model(envs@), id, k@),
            decreases cur,
        {
            if cur >= envs.len() {
                return None;
            }
            if envs[cur].values.contains_key(k) {
                return Some(cur);
            }
            match envs[cur].enclosing {
                Some(p) => {
                    if p < cur {
                        cur = p;
                    } else {
                        return None;
                    }
                },
                None => {
                    return None;
                },
            }
        }
    }

    /// The frame exactly `distance` hops from `id`, if it binds `k`.
    pub fn find_at(envs: &Vec<Env>, id: usize, k: &String, distance: i32) -> (r: Option<usize>)
        ensures
            r == frame_at(envs_model(envs@), id, k@, distance),
            r matches Some(f) ==> f < envs.len() && envs@[f as int]@.values.contains_key(k@),
    {
        if distance < 0 {
            return None;
        }
        match Env::ancestor_of(envs, id, distance as usize) {
            Some(f) => {
                if envs[f].values.contains_key(k) {
                    Some(f)
                } else {
                    None
                }
            },
            None => None,
        }
    }

    /// Writes `v` over the binding of `k` in the frame `target` and returns
    /// the value that was there.
    fn write(envs: &mut Vec<Env>, target: Option<usize>, k: String, v: LoxValue) -> (r: Option<
        LoxValue,
    >)
        requires
            target matches Some(f) ==> f < old(envs).len(),
        ensures
            envs_model(final(envs)@) == written(envs_model(old(envs)@), target, k@, v@),
            value_option(r) == replaced(envs_model(old(envs)@), target, k@),
    {
        match target {
            Some(f) => {
                let ghost before = envs@;
                let ghost name = k@;
                let ghost value = v@;
                let r = envs[f].define(k, v);
                proof {
                    lemma_bind_in(before, envs@, f, name, value);
                }
                r
            },
            None => None,
        }
    }

    /// Searches the chain from `id` for the nearest frame that binds `k` and
    /// writes `v` there. Returns the value that was replaced, or `None`,
    /// with nothing changed, where no frame binds `k`.
    pub fn assign(envs: &mut Vec<Env>, id: usize, k: String, v: LoxValue) -> (r: Option<LoxValue>)
        ensures
            envs_model(final(envs)@) == written(
                envs_model(old(envs)@),
                frame_of(envs_model(old(envs)@), id, k@),
                k@,
                v@,
            ),
            value_option(r) == get_model(envs_model(old(envs)@), id, k@),
    {
        let target = Env::find(envs, id, &k);
        Env::write(envs, target, k, v)
    }

    /// Writes `v` over the binding of `k` in the frame exactly `distance`
    /// hops from `id`. Returns the value that was replaced, or `None`, with
    /// nothing changed, where there is no such frame or it does not bind `k`.
    pub fn assign_at(envs: &mut Vec<Env>, id: usize, distance: i32, k: String, v: LoxValue) -> (r:
        Option<LoxValue>)
        ensures
            envs_model(final(envs)@) == written(
                envs_model(old(envs)@),
                frame_at(envs_model(old(envs)@), id, k@, distance),
                k@,
                v@,
            ),
            value_option(r) == get_at_model(envs_model(old(envs)@), id, k@, distance),
    {
        let target = Env::find_at(envs, id, &k, distance);
        Env::write(envs, target, k, v)
    }

    /// Chain lookup from frame `id`.
    pub fn get(envs: &Vec<Env>, id: usize, k: &String) -> (r: Option<LoxValue>)
        ensures
            value_option(r) == get_model(envs_model(envs@), id, k@),
    {
        match Env::find(envs, id, k) {
            Some(f) => match envs[f].values.get(k) {
                Some(v) => Some(v.duplicate()),
                None => None,
            },
            None => None,
        }
    }

    /// Lookup in the frame exactly `distance` hops from `id`.
    pub fn get_at(envs: &Vec<Env>, id: usize, name: &String, distance: i32) -> (r: Option<LoxValue>)
        ensures
            value_option(r) == get_at_model(envs_model(envs@), id, name@, distance),
    {
        match Env::find_at(envs, id, name, distance) {
            Some(f) => match envs[f].values.get(name) {
                Some(v) => Some(v.duplicate()),
                None => None,
            },
            None => None,
        }
    }
}


/// What a definition does to lookups: the name that was defined in a frame
/// is read there, at distance 0 and by a search from that frame; every
/// other name is read as before, from every frame.
pub proof fn a_definition_is_read_back(
    envs: Seq<EnvModel>,
    f: usize,
    name: Seq<char>,
    v: ValueModel,
    from: usize,
    other: Seq<char>,
    distance: i32,
)
    requires
        f < envs.len(),
    ensures
        get_at_model(bind_in(envs, f, name, v), f, name, 0) == Some(v),
        get_model(bind_in(envs, f, name, v), f, name) == Some(v),
        other != name ==> get_at_model(bind_in(envs, f, name, v), from, other, distance)
            == get_at_model(envs, from, other, distance),
        other != name ==> get_model(bind_in(envs, f, name, v), from, other) == get_model(
            envs,
            from,
            other,
        ),
{
    if distance >= 0 {
        lemma_bind_in_keeps_chains(envs, f, name, v, from, distance as nat);
        lemma_ancestor_exists(envs, from, distance as nat);
    }
    if other != name {
        lemma_bind_in_keeps_search(envs, f, name, v, from, other);
        lemma_frame_of_binds(envs, from, other);
    }
}

/// The frame that a walk reaches is a frame of the list.
pub proof fn lemma_ancestor_exists(envs: Seq<EnvModel>, id: usize, distance: nat)
    ensures
        ancestor(envs, id, distance) matches Some(f) ==> f < envs.len(),
    decreases distance,
{
    if id < envs.len() && distance > 0 {
        match envs[id as int].enclosing {
            Some(p) => {
                lemma_ancestor_exists(envs, p, (distance - 1) as nat);
            },
            None => {},
        }
    }
}

/// The frame that a search finds binds the name.
pub proof fn lemma_frame_of_binds(envs: Seq<EnvModel>, id: usize, name: Seq<char>)
    ensures
        frame_of(envs, id, name) matches Some(f) ==> f < envs.len() && envs[f as int].values.contains_key(
            name,
        ),
    decreases id,
{
    if id < envs.len() && !envs[id as int].values.contains_key(name) {
        match envs[id as int].enclosing {
            Some(p) => {
                if p < id {
                    lemma_frame_of_binds(envs, p, name);
                }
            },
            None => {},
        }
    }
}

proof fn lemma_bind_in_keeps_chains(
    envs: Seq<EnvModel>,
    f: usize,
    name: Seq<char>,
    v: ValueModel,
    from: usize,
    distance: nat,
)
    ensures
        ancestor(bind_in(envs, f, name, v), from, distance) == ancestor(envs, from, distance),
    decreases distance,
{
    if from < envs.len() && distance > 0 {
        match envs[from as int].enclosing {
            Some(p) => {
                lemma_bind_in_keeps_chains(envs, f, name, v, p, (distance - 1) as nat);
            },
            None => {},
        }
    }
}

proof fn lemma_bind_in_keeps_search(
    envs: Seq<EnvModel>,
    f: usize,
    name: Seq<char>,
    v: ValueModel,
    from: usize,
    other: Seq<char>,
)
    requires
        other != name,
    ensures
        frame_of(bind_in(envs, f, name, v), from, other) == frame_of(envs, from, other),
    decreases from,
{
    if from < envs.len() && !envs[from as int].values.contains_key(other) {
        match envs[from as int].enclosing {
            Some(p) => {
                if p < from {
                    lemma_bind_in_keeps_search(envs, f, name, v, p, other);
                }
            },
            None => {},
        }
    }
}

/// A lookup at distance 0 reads the current frame and nothing else; a
/// search that finds the name in the current frame reads the same.
pub proof fn distance_zero_is_the_current_frame(envs: Seq<EnvModel>, id: usize, name: Seq<char>)
    ensures
        get_at_model(envs, id, name, 0) == local(envs, id, name),
        local(envs, id, name) is Some ==> get_model(envs, id, name) == local(envs, id, name),
        id < envs.len() && !envs[id as int].values.contains_key(name) ==> get_at_model(
            envs,
            id,
            name,
            0,
        ) is None,
{
}

} // verus!
