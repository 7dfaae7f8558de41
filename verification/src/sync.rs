//! Writing a project back: the file operations that bring the project as it
//! was read to the project as an action left it.

use vstd::prelude::*;

use crate::endpoint::{Endpoint, EndpointV};
use crate::pairmap::Entries;
use crate::project::{env_at, env_dirs_view, env_has, state_value, EnvDirV, EnvsV, Quartz, StateField, StateFiles};
use crate::store::{body_at, clone_path, endpoint_at, has_dir, nodes_view, opt_endpoint_view, NodeV, PathV, StoreV};
use crate::text::{str_eq, views};

verus! {

/// A file operation on the project directory.
pub enum SyncAction {
    /// Removes the endpoint directory and everything in it.
    RemoveEndpointDir(Vec<String>),
    /// Creates the endpoint directory and its ancestors, where missing.
    CreateEndpointDir(Vec<String>),
    /// Writes the `endpoint.toml` file of the directory.
    WriteEndpoint(Vec<String>, Endpoint),
    /// Removes the `endpoint.toml` file of the directory.
    RemoveEndpointFile(Vec<String>),
    /// Writes the `body` file of the directory.
    WriteBody(Vec<String>, String),
    /// Removes the `body` file of the directory.
    RemoveBody(Vec<String>),
    /// Removes the environment directory and everything in it.
    RemoveEnvDir(String),
    /// Creates the environment directory, where missing.
    CreateEnvDir(String),
    /// Writes the `variables` file of the environment.
    WriteVariables(String, String),
    /// Writes the `headers` file of the environment.
    WriteHeaders(String, String),
    /// Writes the state file of the field.
    WriteState(StateField, String),
}

/// A file operation, as values.
pub enum SyncActionV {
    RemoveEndpointDir(PathV),
    CreateEndpointDir(PathV),
    WriteEndpoint(PathV, EndpointV),
    RemoveEndpointFile(PathV),
    WriteBody(PathV, Seq<char>),
    RemoveBody(PathV),
    RemoveEnvDir(Seq<char>),
    CreateEnvDir(Seq<char>),
    WriteVariables(Seq<char>, Seq<char>),
    WriteHeaders(Seq<char>, Seq<char>),
    WriteState(StateField, Seq<char>),
}

impl View for SyncAction {
    type V = SyncActionV;

    open spec fn view(&self) -> SyncActionV {
        match self {
            SyncAction::RemoveEndpointDir(p) => SyncActionV::RemoveEndpointDir(views(p@)),
            SyncAction::CreateEndpointDir(p) => SyncActionV::CreateEndpointDir(views(p@)),
            SyncAction::WriteEndpoint(p, e) => SyncActionV::WriteEndpoint(views(p@), e@),
            SyncAction::RemoveEndpointFile(p) => SyncActionV::RemoveEndpointFile(views(p@)),
            SyncAction::WriteBody(p, b) => SyncActionV::WriteBody(views(p@), b@),
            SyncAction::RemoveBody(p) => SyncActionV::RemoveBody(views(p@)),
            SyncAction::RemoveEnvDir(n) => SyncActionV::RemoveEnvDir(n@),
            SyncAction::CreateEnvDir(n) => SyncActionV::CreateEnvDir(n@),
            SyncAction::WriteVariables(n, t) => SyncActionV::WriteVariables(n@, t@),
            SyncAction::WriteHeaders(n, t) => SyncActionV::WriteHeaders(n@, t@),
            SyncAction::WriteState(f, t) => SyncActionV::WriteState(*f, t@),
        }
    }
}

pub open spec fn actions_view(v: Seq<SyncAction>) -> Seq<SyncActionV> {
    v.map_values(|a: SyncAction| a@)
}

/// The endpoint directories that were read and are gone: each removed.
pub open spec fn gone_dirs(base: StoreV, now: StoreV) -> Seq<SyncActionV>
    decreases base.len(),
{
    if base.len() == 0 {
        Seq::empty()
    } else {
        gone_dirs(base.drop_last(), now) + if has_dir(now, base.last().path) {
            Seq::empty()
        } else {
            seq![SyncActionV::RemoveEndpointDir(base.last().path)]
        }
    }
}

/// The operations for one endpoint directory: it is created; its endpoint
/// and body files are written where they changed, and removed where they
/// were read and are gone.
pub open spec fn node_sync(base: StoreV, n: NodeV) -> Seq<SyncActionV> {
    let ep = match n.endpoint {
        Some(e) => if endpoint_at(base, n.path) == Some(e) {
            Seq::empty()
        } else {
            seq![SyncActionV::WriteEndpoint(n.path, e)]
        },
        None => if endpoint_at(base, n.path) is Some {
            seq![SyncActionV::RemoveEndpointFile(n.path)]
        } else {
            Seq::empty()
        },
    };
    let bd = match n.body {
        Some(b) => if body_at(base, n.path) == Some(b) {
            Seq::empty()
        } else {
            seq![SyncActionV::WriteBody(n.path, b)]
        },
        None => if body_at(base, n.path) is Some {
            seq![SyncActionV::RemoveBody(n.path)]
        } else {
            Seq::empty()
        },
    };
    seq![SyncActionV::CreateEndpointDir(n.path)] + ep + bd
}

/// The operations for every endpoint directory, in order.
pub open spec fn nodes_sync(base: StoreV, now: StoreV) -> Seq<SyncActionV>
    decreases now.len(),
{
    if now.len() == 0 {
        Seq::empty()
    } else {
        nodes_sync(base, now.drop_last()) + node_sync(base, now.last())
    }
}

/// The environments that were read and are gone: each removed.
pub open spec fn gone_envs(base: EnvsV, now: EnvsV) -> Seq<SyncActionV>
    decreases base.len(),
{
    if base.len() == 0 {
        Seq::empty()
    } else {
        gone_envs(base.drop_last(), now) + if env_has(now, base.last().name) {
            Seq::empty()
        } else {
            seq![SyncActionV::RemoveEnvDir(base.last().name)]
        }
    }
}

/// What a file of the environment `name` held when it was read.
pub open spec fn base_file(base: EnvsV, name: Seq<char>, headers: bool) -> Option<Seq<char>> {
    match env_at(base, name) {
        Some(d) => if headers {
            d.headers
        } else {
            d.variables
        },
        None => None,
    }
}

/// The operations for one environment: its directory is created, and each
/// of its files written where it changed.
pub open spec fn env_sync(base: EnvsV, d: EnvDirV) -> Seq<SyncActionV> {
    let v = match d.variables {
        Some(t) => if base_file(base, d.name, false) == Some(t) {
            Seq::empty()
        } else {
            seq![SyncActionV::WriteVariables(d.name, t)]
        },
        None => Seq::empty(),
    };
    let h = match d.headers {
        Some(t) => if base_file(base, d.name, true) == Some(t) {
            Seq::empty()
        } else {
            seq![SyncActionV::WriteHeaders(d.name, t)]
        },
        None => Seq::empty(),
    };
    seq![SyncActionV::CreateEnvDir(d.name)] + v + h
}

/// The operations for every environment, in order.
pub open spec fn envs_sync(base: EnvsV, now: EnvsV) -> Seq<SyncActionV>
    decreases now.len(),
{
    if now.len() == 0 {
        Seq::empty()
    } else {
        envs_sync(base, now.drop_last()) + env_sync(base, now.last())
    }
}

/// The state file of `f` written where it is set and changed.
pub open spec fn field_sync(base: StateFiles, now: StateFiles, f: StateField) -> Seq<SyncActionV> {
    match state_value(now, f) {
        Some(v) => if state_value(base, f) == Some(v) {
            Seq::empty()
        } else {
            seq![SyncActionV::WriteState(f, v)]
        },
        None => Seq::empty(),
    }
}

/// The operations that bring the project read as `base` to `now`: gone
/// endpoint directories removed, then each endpoint directory, then gone
/// environments removed, then each environment, then the state files.
pub open spec fn sync_plan(base: (StoreV, EnvsV, StateFiles), now: (StoreV, EnvsV, StateFiles)) -> Seq<
    SyncActionV,
> {
    gone_dirs(base.0, now.0) + nodes_sync(base.0, now.0) + gone_envs(base.1, now.1) + envs_sync(
        base.1,
        now.1,
    ) + field_sync(base.2, now.2, StateField::Endpoint) + field_sync(
        base.2,
        now.2,
        StateField::PreviousEndpoint,
    ) + field_sync(base.2, now.2, StateField::Env)
}

/// The parts of a project that `sync_plan` compares.
pub open spec fn project_parts(q: &Quartz) -> (StoreV, EnvsV, StateFiles) {
    (q.endpoints@, q.envs@, q.state)
}

/// Whether two lists of pairs hold the same texts.
fn entries_same(a: &Vec<(String, String)>, b: &Vec<(String, String)>) -> (r: bool)
    ensures
        r == (a@.map_values(|e: (String, String)| (e.0@, e.1@)) == b@.map_values(
            |e: (String, String)| (e.0@, e.1@),
        )),
{
    let ghost av = a@.map_values(|e: (String, String)| (e.0@, e.1@));
    let ghost bv = b@.map_values(|e: (String, String)| (e.0@, e.1@));
    if a.len() != b.len() {
        assert(av.len() != bv.len());
        return false;
    }
    let mut i: usize = 0;
    while i < a.len()
        invariant
            i <= a.len(),
            a.len() == b.len(),
            av == a@.map_values(|e: (String, String)| (e.0@, e.1@)),
            bv == b@.map_values(|e: (String, String)| (e.0@, e.1@)),
            forall|j: int| 0 <= j < i ==> av[j] == bv[j],
        decreases a.len() - i,
    {
        assert(av[i as int] == (a@[i as int].0@, a@[i as int].1@));
        assert(bv[i as int] == (b@[i as int].0@, b@[i as int].1@));
        if !str_eq(a[i].0.as_str(), b[i].0.as_str()) || !str_eq(a[i].1.as_str(), b[i].1.as_str()) {
            return false;
        }
        i = i + 1;
    }
    assert(av =~= bv);
    true
}

/// Whether two endpoints are the same.
fn endpoint_same(a: &Endpoint, b: &Endpoint) -> (r: bool)
    ensures
        r == (a@ == b@),
{
    let same = str_eq(a.url.as_str(), b.url.as_str()) && str_eq(a.method.as_str(), b.method.as_str())
        && entries_same(a.query.0.entries(), b.query.0.entries()) && entries_same(
        a.headers.0.entries(),
        b.headers.0.entries(),
    );
    proof {
        if same {
            assert(a@ == b@);
        }
    }
    same
}

/// Whether an optional text is set to `t`.
fn is_text(o: &Option<String>, t: &String) -> (r: bool)
    ensures
        r == (crate::store::opt_string_view(*o) == Some(t@)),
{
    match o {
        Some(x) => str_eq(x.as_str(), t.as_str()),
        None => false,
    }
}

/// The operations that write back `now`, a project that was read as `base`:
/// the endpoint directories that were read and are gone are removed; each
/// endpoint directory is created, its endpoint and body files written where
/// they changed and removed where they were read and are gone; the
/// environments that are gone are removed; each environment directory is
/// created and its files written where they changed; the state files that
/// are set are written where they changed.
pub fn sync(base: &Quartz, now: &Quartz) -> (r: Vec<SyncAction>)
    ensures
        actions_view(r@) == sync_plan(project_parts(base), project_parts(now)),
{
    let mut out: Vec<SyncAction> = Vec::new();
    let ghost bst = base.endpoints@;
    let ghost nst = now.endpoints@;
    let bnodes = base.endpoints.nodes();
    let nnodes = now.endpoints.nodes();
    let mut i: usize = 0;
    assert(bst.take(0) =~= Seq::<NodeV>::empty());
    while i < bnodes.len()
        invariant
            i <= bnodes.len(),
            nodes_view(bnodes@) == bst,
            bst == base.endpoints@,
            nst == now.endpoints@,
            actions_view(out@) == gone_dirs(bst.take(i as int), nst),
        decreases bnodes.len() - i,
    {
        let ghost prev = actions_view(out@);
        assert(bst.take(i + 1).drop_last() =~= bst.take(i as int));
        assert(bst.take(i + 1).last() == bnodes@[i as int]@);
        if !now.endpoints.contains_dir(&bnodes[i].path) {
            out.push(SyncAction::RemoveEndpointDir(clone_path(&bnodes[i].path)));
            assert(actions_view(out@) =~= prev + seq![
                SyncActionV::RemoveEndpointDir(views(bnodes@[i as int].path@)),
            ]);
        } else {
            assert(prev + Seq::<SyncActionV>::empty() =~= prev);
        }
        i = i + 1;
    }
    assert(bst.take(bnodes.len() as int) =~= bst);
    let ghost part1 = actions_view(out@);
    let mut j: usize = 0;
    assert(nst.take(0) =~= Seq::<NodeV>::empty());
    assert(part1 + Seq::<SyncActionV>::empty() =~= part1);
    while j < nnodes.len()
        invariant
            j <= nnodes.len(),
            nodes_view(nnodes@) == nst,
            bst == base.endpoints@,
            nst == now.endpoints@,
            part1 == gone_dirs(bst, nst),
            actions_view(out@) == part1 + nodes_sync(bst, nst.take(j as int)),
        decreases nnodes.len() - j,
    {
        let n = &nnodes[j];
        let ghost nv = n@;
        assert(nst.take(j + 1).drop_last() =~= nst.take(j as int));
        assert(nst.take(j + 1).last() == nv);
        let ghost prev = actions_view(out@);
        out.push(SyncAction::CreateEndpointDir(clone_path(&n.path)));
        let ghost ep: Seq<SyncActionV> = Seq::empty();
        match &n.endpoint {
            Some(e) => {
                let before = base.endpoints.endpoint(&n.path);
                let same = match &before {
                    Some(be) => endpoint_same(be, e),
                    None => false,
                };
                if !same {
                    out.push(SyncAction::WriteEndpoint(clone_path(&n.path), e.clone_endpoint()));
                    proof {
                        ep = seq![SyncActionV::WriteEndpoint(nv.path, e@)];
                    }
                }
            },
            None => {
                if base.endpoints.endpoint(&n.path).is_some() {
                    out.push(SyncAction::RemoveEndpointFile(clone_path(&n.path)));
                    proof {
                        ep = seq![SyncActionV::RemoveEndpointFile(nv.path)];
                    }
                }
            },
        }
        let ghost bd: Seq<SyncActionV> = Seq::empty();
        match &n.body {
            Some(b) => {
                let before = base.endpoints.body(&n.path);
                if !is_text(&before, b) {
                    out.push(SyncAction::WriteBody(clone_path(&n.path), b.clone()));
                    proof {
                        bd = seq![SyncActionV::WriteBody(nv.path, b@)];
                    }
                }
            },
            None => {
                if base.endpoints.body(&n.path).is_some() {
                    out.push(SyncAction::RemoveBody(clone_path(&n.path)));
                    proof {
                        bd = seq![SyncActionV::RemoveBody(nv.path)];
                    }
                }
            },
        }
        assert(ep + bd =~= node_sync(bst, nv).skip(1));
        assert(actions_view(out@) =~= prev + node_sync(bst, nv));
        j = j + 1;
    }
    assert(nst.take(nnodes.len() as int) =~= nst);
    let ghost part2 = actions_view(out@);
    let ghost benv = base.envs@;
    let ghost nenv = now.envs@;
    let bdirs = base.envs.dirs();
    let ndirs = now.envs.dirs();
    let mut k: usize = 0;
    assert(benv.take(0) =~= Seq::<EnvDirV>::empty());
    assert(part2 + Seq::<SyncActionV>::empty() =~= part2);
    while k < bdirs.len()
        invariant
            k <= bdirs.len(),
            env_dirs_view(bdirs@) == benv,
            benv == base.envs@,
            nenv == now.envs@,
            actions_view(out@) == part2 + gone_envs(benv.take(k as int), nenv),
        decreases bdirs.len() - k,
    {
        let ghost prev = actions_view(out@);
        assert(benv.take(k + 1).drop_last() =~= benv.take(k as int));
        assert(benv.take(k + 1).last() == bdirs@[k as int]@);
        if !now.envs.contains(bdirs[k].name.as_str()) {
            out.push(SyncAction::RemoveEnvDir(bdirs[k].name.clone()));
            assert(actions_view(out@) =~= prev + seq![SyncActionV::RemoveEnvDir(bdirs@[k as int].name@)]);
        } else {
            assert(prev + Seq::<SyncActionV>::empty() =~= prev);
        }
        k = k + 1;
    }
    assert(benv.take(bdirs.len() as int) =~= benv);
    let ghost part3 = actions_view(out@);
    let mut m: usize = 0;
    assert(nenv.take(0) =~= Seq::<EnvDirV>::empty());
    assert(part3 + Seq::<SyncActionV>::empty() =~= part3);
    while m < ndirs.len()
        invariant
            m <= ndirs.len(),
            env_dirs_view(ndirs@) == nenv,
            benv == base.envs@,
            nenv == now.envs@,
            actions_view(out@) == part3 + envs_sync(benv, nenv.take(m as int)),
        decreases ndirs.len() - m,
    {
        let d = &ndirs[m];
        let ghost dv = d@;
        assert(nenv.take(m + 1).drop_last() =~= nenv.take(m as int));
        assert(nenv.take(m + 1).last() == dv);
        let ghost prev = actions_view(out@);
        out.push(SyncAction::CreateEnvDir(d.name.clone()));
        let before = base.envs.get(d.name.as_str());
        let (bv, bh) = match before {
            Some(x) => (x.variables, x.headers),
            None => (None, None),
        };
        let ghost v: Seq<SyncActionV> = Seq::empty();
        match &d.variables {
            Some(t) => {
                if !is_text(&bv, t) {
                    out.push(SyncAction::WriteVariables(d.name.clone(), t.clone()));
                    proof {
                        v = seq![SyncActionV::WriteVariables(dv.name, t@)];
                    }
                }
            },
            None => {},
        }
        let ghost h: Seq<SyncActionV> = Seq::empty();
        match &d.headers {
            Some(t) => {
                if !is_text(&bh, t) {
                    out.push(SyncAction::WriteHeaders(d.name.clone(), t.clone()));
                    proof {
                        h = seq![SyncActionV::WriteHeaders(dv.name, t@)];
                    }
                }
            },
            None => {},
        }
        assert(v + h =~= env_sync(benv, dv).skip(1));
        assert(actions_view(out@) =~= prev + env_sync(benv, dv));
        m = m + 1;
    }
    assert(nenv.take(ndirs.len() as int) =~= nenv);
    push_field(&mut out, base, now, StateField::Endpoint);
    push_field(&mut out, base, now, StateField::PreviousEndpoint);
    push_field(&mut out, base, now, StateField::Env);
    out
}

/// Adds the operation on the state file of `f`, if any.
fn push_field(out: &mut Vec<SyncAction>, base: &Quartz, now: &Quartz, f: StateField)
    ensures
        actions_view(final(out)@) == actions_view(old(out)@) + field_sync(base.state, now.state, f),
{
    let ghost prev = actions_view(out@);
    match now.state_get(f) {
        Ok(v) => {
            let same = match base.state_get(f) {
                Ok(b) => str_eq(b.as_str(), v.as_str()),
                Err(_) => false,
            };
            if !same {
                out.push(SyncAction::WriteState(f, v));
                assert(actions_view(out@) =~= prev + field_sync(base.state, now.state, f));
            } else {
                assert(actions_view(out@) =~= prev + field_sync(base.state, now.state, f));
            }
        },
        Err(_) => {
            assert(actions_view(out@) =~= prev + field_sync(base.state, now.state, f));
        },
    }
}

} // verus!
