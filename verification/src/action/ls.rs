//! `ls`: the tree of handles.

use vstd::prelude::*;

use crate::action::{endpoint_name, CliResult};
use crate::handle::{handle_dir, handle_path_of, spec_handle, EndpointHandle};
use crate::project::{Quartz, State, StateField};
use crate::store::{children_of, has_dir, PathV, StoreV};
use crate::text::concat;
use crate::tree::{lemma_children_of, lemma_max_depth, max_depth};

verus! {

/// The arguments of `ls`.
pub struct Args {
    /// See the children of a specific handle
    pub handle: Option<String>,
    /// Set a limit for how deep the listing goes in sub-handles
    pub depth: Option<usize>,
}

/// A line of `ls`: the text, and whether it names the handle in use.
pub struct TreeLine {
    pub text: String,
    pub in_use: bool,
}

/// `n` spaces.
pub open spec fn spaces(n: nat) -> Seq<char> {
    Seq::new(n, |i: int| ' ')
}

/// The lines of `ls` for the handle `h` and, with fuel left, the handles
/// below it: each handle but the root on a line of its own, after `pad`
/// spaces, two more spaces for each level below the first.
pub open spec fn tree_lines(st: StoreV, h: PathV, cur: Option<Seq<char>>, pad: nat, fuel: nat) -> Seq<
    (Seq<char>, bool),
>
    decreases fuel, 0nat,
{
    let hs = spec_handle(h);
    let is_root = hs.len() == 0;
    let own = if is_root {
        Seq::empty()
    } else {
        seq![(spaces(pad) + hs, cur == Some(hs))]
    };
    if fuel == 0 {
        own
    } else {
        own + tree_children(
            st,
            children_of(st, handle_dir(h)),
            cur,
            if is_root {
                pad
            } else {
                pad + 2
            },
            (fuel - 1) as nat,
        )
    }
}

/// The lines of `ls` for each of the handles `cs` in turn.
pub open spec fn tree_children(
    st: StoreV,
    cs: Seq<PathV>,
    cur: Option<Seq<char>>,
    pad: nat,
    fuel: nat,
) -> Seq<(Seq<char>, bool)>
    decreases fuel, cs.len() + 1,
{
    if cs.len() == 0 {
        Seq::empty()
    } else {
        tree_lines(st, cs[0], cur, pad, fuel) + tree_children(st, cs.skip(1), cur, pad, fuel)
    }
}

pub open spec fn tree_view(v: Seq<TreeLine>) -> Seq<(Seq<char>, bool)> {
    v.map_values(|l: TreeLine| (l.text@, l.in_use))
}

fn spaces_exec(n: usize) -> (r: String)
    ensures
        r@ == spaces(n as nat),
{
    let mut v: Vec<char> = Vec::new();
    let mut i: usize = 0;
    while i < n
        invariant
            i <= n,
            v@ == spaces(i as nat),
        decreases n - i,
    {
        v.push(' ');
        assert(v@ =~= spaces((i + 1) as nat));
        i = i + 1;
    }
    crate::text::string_of(&v)
}

/// The lines of `ls` for `base` and the handles at most `levels` levels
/// below it.
fn output_tree(
    q: &Quartz,
    base: &EndpointHandle,
    current: &Option<String>,
    padding: usize,
    levels: usize,
) -> (r: Vec<TreeLine>)
    requires
        padding + 2 * levels <= usize::MAX,
    ensures
        tree_view(r@) == tree_lines(
            q.endpoints@,
            base@,
            match current {
                Some(c) => Some(c@),
                None => None,
            },
            padding as nat,
            levels as nat,
        ),
    decreases levels,
{
    let ghost cur = match current {
        Some(c) => Some(c@),
        None => None::<Seq<char>>,
    };
    let ghost st = q.endpoints@;
    let ghost fuel = levels as nat;
    let handle_str = base.handle();
    let is_root = handle_str.as_str().is_empty();
    let in_use = match current {
        Some(c) => crate::text::str_eq(c.as_str(), handle_str.as_str()),
        None => false,
    };
    let aditional_padding: usize = if is_root {
        0
    } else {
        2
    };
    let mut out: Vec<TreeLine> = Vec::new();
    if !is_root {
        let sp = spaces_exec(padding);
        let text = concat(sp.as_str(), handle_str.as_str());
        out.push(TreeLine { text, in_use });
    }
    let ghost own = tree_view(out@);
    assert(own =~= (if is_root {
        Seq::<(Seq<char>, bool)>::empty()
    } else {
        seq![(spaces(padding as nat) + spec_handle(base@), cur == Some(spec_handle(base@)))]
    }));
    if levels == 0 {
        return out;
    }
    let children = match base.children(q) {
        Ok(c) => c,
        Err(_) => Vec::new(),
    };
    let ghost cs = children_of(st, handle_dir(base@));
    let ghost npad: nat = (padding + aditional_padding) as nat;
    let mut j: usize = 0;
    assert(cs.skip(0) =~= cs);
    while j < children.len()
        invariant
            j <= children.len(),
            children@.len() == cs.len(),
            forall|i: int| 0 <= i < children@.len() ==> #[trigger] children@[i]@ == cs[i],
            cs == children_of(st, handle_dir(base@)),
            st == q.endpoints@,
            levels > 0,
            fuel == levels as nat,
            padding + 2 * levels <= usize::MAX,
            aditional_padding <= 2,
            npad == padding + aditional_padding,
            cur == match current {
                Some(c) => Some(c@),
                None => None::<Seq<char>>,
            },
            tree_view(out@) + tree_children(st, cs.skip(j as int), cur, npad, (fuel - 1) as nat)
                == own + tree_children(st, cs, cur, npad, (fuel - 1) as nat),
        decreases children.len() - j,
    {
        let c = &children[j];
        let sub = output_tree(q, c, current, padding + aditional_padding, levels - 1);
        let ghost before = tree_view(out@);
        let mut sub2 = sub;
        out.append(&mut sub2);
        assert(tree_view(out@) =~= before + tree_view(sub@));
        assert(cs.skip(j as int)[0] == cs[j as int]);
        assert(cs.skip(j as int).skip(1) =~= cs.skip(j + 1));
        assert(tree_children(st, cs.skip(j as int), cur, npad, (fuel - 1) as nat) == tree_view(sub@)
            + tree_children(st, cs.skip(j + 1), cur, npad, (fuel - 1) as nat));
        assert((before + tree_view(sub@)) + tree_children(st, cs.skip(j + 1), cur, npad, (fuel - 1) as nat)
            =~= before + (tree_view(sub@) + tree_children(st, cs.skip(j + 1), cur, npad, (fuel - 1) as nat)));
        j = j + 1;
    }
    proof {
        assert(cs.skip(cs.len() as int) =~= Seq::<PathV>::empty());
        assert(tree_view(out@) =~= tree_view(out@) + Seq::<(Seq<char>, bool)>::empty());
    }
    out
}

/// The levels below `base` that hold a handle.
pub open spec fn ls_fuel(st: StoreV, base: PathV) -> nat {
    if max_depth(st) >= handle_dir(base).len() {
        (max_depth(st) - handle_dir(base).len()) as nat
    } else {
        0
    }
}

/// How many levels below `base` `ls` lists: all of them, or at most `depth`.
pub open spec fn ls_levels(st: StoreV, base: PathV, depth: Option<usize>) -> nat {
    match depth {
        Some(n) => if n < ls_fuel(st, base) {
            n as nat
        } else {
            ls_fuel(st, base)
        },
        None => ls_fuel(st, base),
    }
}

/// The number of components of the deepest directory.
fn deepest(q: &Quartz) -> (r: usize)
    ensures
        r == max_depth(q.endpoints@),
{
    let nodes = q.endpoints.nodes();
    let ghost st = q.endpoints@;
    let mut m: usize = 0;
    let mut i: usize = 0;
    assert(st.take(0) =~= Seq::<crate::store::NodeV>::empty());
    while i < nodes.len()
        invariant
            i <= nodes.len(),
            crate::store::nodes_view(nodes@) == st,
            m == max_depth(st.take(i as int)),
        decreases nodes.len() - i,
    {
        assert(st.take(i + 1).drop_last() =~= st.take(i as int));
        assert(st[i as int] == nodes@[i as int]@);
        assert(st[i as int].path.len() == nodes@[i as int].path@.len());
        if nodes[i].path.len() > m {
            m = nodes[i].path.len();
        }
        i = i + 1;
    }
    assert(st.take(nodes.len() as int) =~= st);
    m
}

/// `ls`: a line for each handle below `handle` (the root when none is given),
/// at most `depth` levels below it when a depth is given, and the handle
/// itself unless it is the root, depth first; the line of the handle in use
/// is marked.
pub fn cmd(q: &Quartz, state: &State, args: Args) -> (r: CliResult<Vec<TreeLine>>)
    requires
        2 * max_depth(q.endpoints@) <= usize::MAX,
    ensures
        ({
            let base = match args.handle {
                Some(h) => handle_path_of(h@),
                None => Seq::empty(),
            };
            let cur = endpoint_name(q, state);
            r matches Ok(v) && tree_view(v@) == tree_lines(
                q.endpoints@,
                base,
                cur,
                0,
                ls_levels(q.endpoints@, base, args.depth),
            )
        }),
{
    let base = match args.handle {
        Some(h) => EndpointHandle::named(h.as_str()),
        None => EndpointHandle::root(),
    };
    let current = match state.get(q, StateField::Endpoint) {
        Ok(c) => Some(c),
        Err(_) => None,
    };
    let d = deepest(q);
    let bl = base.dir_key().len();
    let all: usize = if d >= bl {
        d - bl
    } else {
        0
    };
    let levels: usize = match args.depth {
        Some(n) => if n < all {
            n
        } else {
            all
        },
        None => all,
    };
    Ok(output_tree(q, &base, &current, 0, levels))
}

} // verus!
