//! Choosing instances out of the instance tree by their class names.
//!
//! The caller reads a node's children (and, where wanted, their children)
//! together with their class names; the functions here decide which of them
//! are taken, in the order they were read.

use vstd::prelude::*;

use crate::classify::{is_basic_part_class, is_basic_part_class_name, is_part_class, is_part_class_name};
use crate::text::str_eq;

verus! {

/// An instance as read from the target: its address and, where its type
/// information could be read, its class name.
pub struct Classed {
    pub addr: u64,
    pub class: Option<String>,
}

/// A child of the node looked at, together with the children read below it
/// (none where they were not read).
pub struct Family {
    pub head: Classed,
    pub kids: Vec<Classed>,
}

/// Which class names are taken.
pub enum NodeRule {
    /// Any of these names.
    OneOf(Vec<String>),
    /// One of the part classes looked for among the workspace's children.
    AnyPart,
    /// One of the part classes looked for one level further down.
    BasicPart,
}

/// The class names as character sequences.
pub open spec fn name_views(names: Seq<String>) -> Seq<Seq<char>> {
    names.map_values(|s: String| s@)
}

pub open spec fn node_rule_holds(rule: NodeRule, n: Seq<char>) -> bool {
    match rule {
        NodeRule::OneOf(names) => name_views(names@).contains(n),
        NodeRule::AnyPart => is_part_class_name(n),
        NodeRule::BasicPart => is_basic_part_class_name(n),
    }
}

/// Whether the rule takes a class name.
pub fn node_rule_accepts(rule: &NodeRule, name: &str) -> (r: bool)
    ensures
        r == node_rule_holds(*rule, name@),
{
    match rule {
        NodeRule::OneOf(names) => {
            let mut i: usize = 0;
            while i < names.len()
                invariant
                    *rule == NodeRule::OneOf(*names),
                    i <= names@.len(),
                    forall|k: int| 0 <= k < i ==> #[trigger] name_views(names@)[k] != name@,
                decreases names@.len() - i,
            {
                if str_eq(name, names[i].as_str()) {
                    assert(name_views(names@)[i as int] == name@);
                    return true;
                }
                i = i + 1;
            }
            false
        },
        NodeRule::AnyPart => is_part_class(name),
        NodeRule::BasicPart => is_basic_part_class(name),
    }
}

/// Whether the rule takes an instance: its class must be known and taken.
pub open spec fn takes(rule: NodeRule, c: Option<String>) -> bool {
    match c {
        Some(s) => node_rule_holds(rule, s@),
        None => false,
    }
}

/// When the children below a child are looked at.
pub enum Below {
    Never,
    Always,
    /// Only below a child that was not taken itself.
    UnlessTaken,
    /// Only below a child whose class is known and not taken.
    WhenOtherClass,
}

/// What to take: the rule for the children, the rule for the children
/// below them, when to look below, and how many to take at most. With
/// `per_family`, the count is looked at only before each child, so the last
/// child's haul is taken whole; otherwise taking stops at `limit`.
pub struct Pick {
    pub top: NodeRule,
    pub sub: NodeRule,
    pub below: Below,
    pub limit: usize,
    pub per_family: bool,
}

pub open spec fn descends(p: Pick, head: Classed) -> bool {
    match p.below {
        Below::Never => false,
        Below::Always => true,
        Below::UnlessTaken => !takes(p.top, head.class),
        Below::WhenOtherClass => head.class is Some && !takes(p.top, head.class),
    }
}

/// The addresses of the instances of `ks` that the rule takes, in order.
pub open spec fn kid_hits(ks: Seq<Classed>, rule: NodeRule) -> Seq<u64>
    decreases ks.len(),
{
    if ks.len() == 0 {
        seq![]
    } else {
        let rest = kid_hits(ks.drop_last(), rule);
        if takes(rule, ks.last().class) {
            rest.push(ks.last().addr)
        } else {
            rest
        }
    }
}

/// What one family yields: the child itself, when taken, then the children
/// below it that are taken, when they are looked at.
pub open spec fn family_hits(f: Family, p: Pick) -> Seq<u64> {
    let own: Seq<u64> = if takes(p.top, f.head.class) {
        seq![f.head.addr]
    } else {
        seq![]
    };
    if descends(p, f.head) {
        own + kid_hits(f.kids@, p.sub)
    } else {
        own
    }
}

/// The first `n` of `s` (all of it when it is shorter).
pub open spec fn take_at_most(s: Seq<u64>, n: int) -> Seq<u64> {
    if s.len() <= n {
        s
    } else {
        s.take(n)
    }
}

pub open spec fn cap(s: Seq<u64>, p: Pick) -> Seq<u64> {
    if p.per_family {
        s
    } else {
        take_at_most(s, p.limit as int)
    }
}

/// What is taken from the families, in order: a family is looked at only
/// while fewer than `limit` are taken.
pub open spec fn picked(fs: Seq<Family>, p: Pick) -> Seq<u64>
    decreases fs.len(),
{
    if fs.len() == 0 {
        seq![]
    } else {
        let prev = picked(fs.drop_last(), p);
        if prev.len() >= p.limit {
            prev
        } else {
            cap(prev + family_hits(fs.last(), p), p)
        }
    }
}

/// Taking stops at `limit` unless families are taken whole.
pub proof fn law_pick_within_limit(fs: Seq<Family>, p: Pick)
    requires
        !p.per_family,
    ensures
        picked(fs, p).len() <= p.limit,
    decreases fs.len(),
{
    if fs.len() > 0 {
        law_pick_within_limit(fs.drop_last(), p);
    }
}

proof fn lemma_cap_push(s: Seq<u64>, x: u64, p: Pick)
    ensures
        cap(s.push(x), p) == if p.per_family || cap(s, p).len() < p.limit {
            cap(s, p).push(x)
        } else {
            cap(s, p)
        },
{
    if !p.per_family {
        if s.len() < p.limit {
            assert(take_at_most(s, p.limit as int) == s);
        } else {
            assert(s.push(x).take(p.limit as int) =~= s.take(p.limit as int));
        }
    }
}

/// Whether the rule takes an instance read from the target.
fn takes_classed(rule: &NodeRule, c: &Classed) -> (r: bool)
    ensures
        r == takes(*rule, c.class),
{
    match &c.class {
        Some(s) => node_rule_accepts(rule, s.as_str()),
        None => false,
    }
}

/// The instances taken from the families, in the order they were read (see
/// `picked`).
pub fn pick_from_families(fams: &Vec<Family>, p: &Pick) -> (r: Vec<u64>)
    ensures
        r@ == picked(fams@, *p),
{
    let mut out: Vec<u64> = Vec::new();
    let mut i: usize = 0;
    while i < fams.len()
        invariant
            i <= fams@.len(),
            out@ == picked(fams@.take(i as int), *p),
        decreases fams@.len() - i,
    {
        proof {
            assert(fams@.take(i + 1).drop_last() =~= fams@.take(i as int));
            assert(fams@.take(i + 1).last() == fams@[i as int]);
        }
        if out.len() < p.limit {
            let f = &fams[i];
            let ghost base = out@;
            let ghost part: Seq<u64> = seq![];
            proof {
                assert(base + part =~= base);
                assert(take_at_most(base, p.limit as int) == base);
            }
            let top_hit = takes_classed(&p.top, &f.head);
            if top_hit {
                proof {
                    lemma_cap_push(base + part, f.head.addr, *p);
                    assert((base + part).push(f.head.addr) =~= base + seq![f.head.addr]);
                }
                if p.per_family || out.len() < p.limit {
                    out.push(f.head.addr);
                }
                proof {
                    part = seq![f.head.addr];
                }
            }
            assert(out@ == cap(base + part, *p));
            let descend = match p.below {
                Below::Never => false,
                Below::Always => true,
                Below::UnlessTaken => !top_hit,
                Below::WhenOtherClass => f.head.class.is_some() && !top_hit,
            };
            if descend {
                let ghost own = part;
                let mut j: usize = 0;
                while j < f.kids.len()
                    invariant
                        j <= f.kids@.len(),
                        part == own + kid_hits(f.kids@.take(j as int), p.sub),
                        out@ == cap(base + part, *p),
                    decreases f.kids@.len() - j,
                {
                    proof {
                        assert(f.kids@.take(j + 1).drop_last() =~= f.kids@.take(j as int));
                        assert(f.kids@.take(j + 1).last() == f.kids@[j as int]);
                    }
                    let k = &f.kids[j];
                    if takes_classed(&p.sub, k) {
                        proof {
                            lemma_cap_push(base + part, k.addr, *p);
                            assert((base + part).push(k.addr) =~= base + part.push(k.addr));
                        }
                        if p.per_family || out.len() < p.limit {
                            out.push(k.addr);
                        }
                        proof {
                            part = part.push(k.addr);
                        }
                    }
                    j = j + 1;
                }
                proof {
                    assert(f.kids@.take(f.kids@.len() as int) =~= f.kids@);
                }
            }
            assert(part == family_hits(*f, *p));
        }
        i = i + 1;
    }
    proof {
        assert(fams@.take(fams@.len() as int) =~= fams@);
    }
    out
}

/// Whether an instance read from the target is of class `class`.
pub open spec fn of_class(c: Classed, class: Seq<char>) -> bool {
    match c.class {
        Some(n) => n@ == class,
        None => false,
    }
}

/// The addresses of the instances of `ks` of class `class`, in order.
pub open spec fn class_hits(ks: Seq<Classed>, class: Seq<char>) -> Seq<u64>
    decreases ks.len(),
{
    if ks.len() == 0 {
        seq![]
    } else {
        let rest = class_hits(ks.drop_last(), class);
        if of_class(ks.last(), class) {
            rest.push(ks.last().addr)
        } else {
            rest
        }
    }
}

/// One step of the search with the children `ks` of the node just taken off
/// the stack: each child of the class is added to `found`; once `found`
/// holds `max` the step stops; every child looked at before that goes on
/// the stack. The third part tells whether the step stopped.
pub open spec fn absorb(found: Seq<u64>, stack: Seq<u64>, ks: Seq<Classed>, class: Seq<char>, max: nat) -> (
    Seq<u64>,
    Seq<u64>,
    bool,
)
    decreases ks.len(),
{
    if ks.len() == 0 {
        (found, stack, found.len() >= max)
    } else {
        let prev = absorb(found, stack, ks.drop_last(), class, max);
        let k = ks.last();
        if prev.2 {
            prev
        } else if of_class(k, class) {
            let f = prev.0.push(k.addr);
            if f.len() >= max {
                (f, prev.1, true)
            } else {
                (f, prev.1.push(k.addr), false)
            }
        } else {
            (prev.0, prev.1.push(k.addr), false)
        }
    }
}

/// A step of the search adds to what was found exactly the first children
/// of the class, up to `max` in all, and stops exactly when `max` are found.
pub proof fn law_absorb_finds_class(found: Seq<u64>, stack: Seq<u64>, ks: Seq<Classed>, class: Seq<char>, max: nat)
    requires
        found.len() <= max,
    ensures
        absorb(found, stack, ks, class, max).0 == found + take_at_most(
            class_hits(ks, class),
            max - found.len(),
        ),
        absorb(found, stack, ks, class, max).2 == (absorb(found, stack, ks, class, max).0.len() >= max),
    decreases ks.len(),
{
    let m = max - found.len();
    if ks.len() == 0 {
        assert(found + take_at_most(class_hits(ks, class), m) =~= found);
    } else {
        let dl = ks.drop_last();
        law_absorb_finds_class(found, stack, dl, class, max);
        let prev = absorb(found, stack, dl, class, max);
        let h = class_hits(dl, class);
        if prev.2 {
            assert(take_at_most(h, m).len() >= m);
            assert(h.len() >= m);
            if of_class(ks.last(), class) {
                assert(h.push(ks.last().addr).take(m) =~= h.take(m));
            }
        } else {
            assert(take_at_most(h, m) == h);
            if of_class(ks.last(), class) {
                assert(found + h.push(ks.last().addr) =~= (found + h).push(ks.last().addr));
            }
        }
    }
}

/// The addresses of the instances `ks`, in order.
pub open spec fn kid_addrs(ks: Seq<Classed>) -> Seq<u64> {
    ks.map_values(|c: Classed| c.addr)
}

/// Every node's children lie lower than the node by `h`: the children read
/// from the target form a tree of finite height (no node is its own
/// descendant).
pub open spec fn lower(tree: spec_fn(u64) -> Seq<Classed>, h: spec_fn(u64) -> nat) -> bool {
    forall|n: u64, i: int| 0 <= i < tree(n).len() ==> h(#[trigger] tree(n)[i].addr) < h(n)
}

/// The instances of the class below `n`, in the order the search finds them:
/// the children of `n` of the class, then what lies below each child, the
/// last child first.
pub open spec fn matches_below(
    tree: spec_fn(u64) -> Seq<Classed>,
    h: spec_fn(u64) -> nat,
    class: Seq<char>,
    n: u64,
) -> Seq<u64>
    decreases h(n) + 1, 0nat,
{
    class_hits(tree(n), class) + stack_matches(tree, h, class, kid_addrs(tree(n)), h(n))
}

/// What the search finds below the nodes of a stack (all lower than `b`),
/// the top of the stack first.
pub open spec fn stack_matches(
    tree: spec_fn(u64) -> Seq<Classed>,
    h: spec_fn(u64) -> nat,
    class: Seq<char>,
    s: Seq<u64>,
    b: nat,
) -> Seq<u64>
    decreases b, s.len(),
{
    if s.len() == 0 {
        seq![]
    } else if h(s.last()) < b {
        matches_below(tree, h, class, s.last()) + stack_matches(tree, h, class, s.drop_last(), b)
    } else {
        seq![]
    }
}

/// The number of nodes in the subtree of `n`.
pub open spec fn size_below(tree: spec_fn(u64) -> Seq<Classed>, h: spec_fn(u64) -> nat, n: u64) -> nat
    decreases h(n) + 1, 0nat,
{
    1 + stack_size(tree, h, kid_addrs(tree(n)), h(n))
}

/// The number of nodes in the subtrees of the nodes of a stack.
pub open spec fn stack_size(tree: spec_fn(u64) -> Seq<Classed>, h: spec_fn(u64) -> nat, s: Seq<u64>, b: nat) -> nat
    decreases b, s.len(),
{
    if s.len() == 0 {
        0
    } else if h(s.last()) < b {
        size_below(tree, h, s.last()) + stack_size(tree, h, s.drop_last(), b)
    } else {
        0
    }
}

/// The search run to its end, the caller handing back `tree(n)` as the
/// children of each node `n` that `next` gives, for at most `fuel` steps.
pub open spec fn run_search(
    tree: spec_fn(u64) -> Seq<Classed>,
    class: Seq<char>,
    max: nat,
    found: Seq<u64>,
    stack: Seq<u64>,
    fuel: nat,
) -> Seq<u64>
    decreases fuel,
{
    if fuel == 0 || found.len() >= max || stack.len() == 0 {
        found
    } else {
        let a = absorb(found, stack.drop_last(), tree(stack.last()), class, max);
        run_search(tree, class, max, a.0, a.1, (fuel - 1) as nat)
    }
}

proof fn lemma_absorb_stack(found: Seq<u64>, stack: Seq<u64>, ks: Seq<Classed>, class: Seq<char>, max: nat)
    ensures
        !absorb(found, stack, ks, class, max).2 ==> absorb(found, stack, ks, class, max).1 == stack + kid_addrs(ks),
    decreases ks.len(),
{
    if ks.len() == 0 {
        assert(stack + kid_addrs(ks) =~= stack);
    } else {
        lemma_absorb_stack(found, stack, ks.drop_last(), class, max);
        assert(kid_addrs(ks) =~= kid_addrs(ks.drop_last()).push(ks.last().addr));
        assert(stack + kid_addrs(ks) =~= (stack + kid_addrs(ks.drop_last())).push(ks.last().addr));
    }
}

proof fn lemma_stack_matches_concat(
    tree: spec_fn(u64) -> Seq<Classed>,
    h: spec_fn(u64) -> nat,
    class: Seq<char>,
    s: Seq<u64>,
    t: Seq<u64>,
    b: nat,
)
    requires
        forall|i: int| 0 <= i < t.len() ==> h(#[trigger] t[i]) < b,
    ensures
        stack_matches(tree, h, class, s + t, b) == stack_matches(tree, h, class, t, b) + stack_matches(tree, h, class, s, b),
        stack_size(tree, h, s + t, b) == stack_size(tree, h, t, b) + stack_size(tree, h, s, b),
    decreases t.len(),
{
    if t.len() == 0 {
        assert(s + t =~= s);
        assert(seq![] + stack_matches(tree, h, class, s, b) =~= stack_matches(tree, h, class, s, b));
    } else {
        let t0 = t.drop_last();
        assert(forall|i: int| 0 <= i < t0.len() ==> t0[i] == t[i]);
        lemma_stack_matches_concat(tree, h, class, s, t0, b);
        assert((s + t).drop_last() =~= s + t0);
        assert((s + t).last() == t.last());
        assert(h(t[t.len() - 1]) < b);
        let mb = matches_below(tree, h, class, t.last());
        assert(mb + (stack_matches(tree, h, class, t0, b) + stack_matches(tree, h, class, s, b)) =~= (mb
            + stack_matches(tree, h, class, t0, b)) + stack_matches(tree, h, class, s, b));
    }
}

proof fn lemma_stack_matches_bound(
    tree: spec_fn(u64) -> Seq<Classed>,
    h: spec_fn(u64) -> nat,
    class: Seq<char>,
    s: Seq<u64>,
    b: nat,
    c: nat,
)
    requires
        forall|i: int| 0 <= i < s.len() ==> h(#[trigger] s[i]) < b && h(s[i]) < c,
    ensures
        stack_matches(tree, h, class, s, b) == stack_matches(tree, h, class, s, c),
        stack_size(tree, h, s, b) == stack_size(tree, h, s, c),
    decreases s.len(),
{
    if s.len() > 0 {
        let s0 = s.drop_last();
        assert(forall|i: int| 0 <= i < s0.len() ==> s0[i] == s[i]);
        assert(h(s[s.len() - 1]) < b);
        lemma_stack_matches_bound(tree, h, class, s0, b, c);
    }
}

proof fn lemma_take_at_most_concat(x: Seq<u64>, y: Seq<u64>, n: int)
    requires
        0 <= n,
    ensures
        x.len() <= n ==> take_at_most(x + y, n) == x + take_at_most(y, n - x.len()),
        x.len() >= n ==> take_at_most(x + y, n) == take_at_most(x, n),
{
    if x.len() <= n {
        if (x + y).len() > n {
            assert((x + y).take(n) =~= x + y.take(n - x.len()));
        }
    } else {
        assert((x + y).take(n) =~= x.take(n));
    }
    if x.len() == n {
        assert((x + y).take(n) =~= x);
        assert(x + take_at_most(y, 0) =~= x);
    }
}

/// The search from any stack of nodes of a tree, with enough steps, adds to
/// what was found the first matches below the stack, up to `max` in all.
pub proof fn lemma_run_search(
    tree: spec_fn(u64) -> Seq<Classed>,
    h: spec_fn(u64) -> nat,
    class: Seq<char>,
    max: nat,
    found: Seq<u64>,
    stack: Seq<u64>,
    b: nat,
    fuel: nat,
)
    requires
        lower(tree, h),
        found.len() <= max,
        forall|i: int| 0 <= i < stack.len() ==> h(#[trigger] stack[i]) < b,
        fuel >= stack_size(tree, h, stack, b),
    ensures
        run_search(tree, class, max, found, stack, fuel) == found + take_at_most(
            stack_matches(tree, h, class, stack, b),
            max - found.len(),
        ),
    decreases fuel,
{
    let m = max - found.len();
    if found.len() >= max {
        assert(take_at_most(stack_matches(tree, h, class, stack, b), m) =~= seq![]);
        assert(found + seq![] =~= found);
    } else if stack.len() == 0 {
        assert(found + take_at_most(seq![], m) =~= found);
    } else {
        let n = stack.last();
        let rest = stack.drop_last();
        let ks = tree(n);
        let kids = kid_addrs(ks);
        assert(h(stack[stack.len() - 1]) < b);
        assert(forall|i: int| 0 <= i < rest.len() ==> rest[i] == stack[i]);
        assert(forall|i: int| 0 <= i < kids.len() ==> kids[i] == ks[i].addr);
        assert forall|i: int| 0 <= i < kids.len() implies h(#[trigger] kids[i]) < h(n) && h(kids[i]) < b by {
            assert(h(tree(n)[i].addr) < h(n));
        }
        lemma_stack_matches_bound(tree, h, class, kids, h(n), b);
        let hits = class_hits(ks, class);
        let below = stack_matches(tree, h, class, kids, h(n));
        let others = stack_matches(tree, h, class, rest, b);
        assert(matches_below(tree, h, class, n) == hits + below);
        assert(stack_matches(tree, h, class, stack, b) == matches_below(tree, h, class, n) + others);
        assert(stack_size(tree, h, stack, b) == size_below(tree, h, n) + stack_size(tree, h, rest, b));
        assert(size_below(tree, h, n) >= 1);
        assert((hits + below) + others =~= hits + (below + others));
        law_absorb_finds_class(found, rest, ks, class, max);
        lemma_absorb_stack(found, rest, ks, class, max);
        let a = absorb(found, rest, ks, class, max);
        lemma_take_at_most_concat(hits, below + others, m);
        if a.2 {
            assert(take_at_most(hits, m).len() >= m);
            assert(a.0.len() >= max);
            assert(run_search(tree, class, max, a.0, a.1, (fuel - 1) as nat) == a.0);
            assert(run_search(tree, class, max, found, stack, fuel) == run_search(tree, class, max, a.0, a.1, (fuel - 1) as nat));
        } else {
            assert(take_at_most(hits, m) == hits);
            let stack2 = rest + kids;
            lemma_stack_matches_concat(tree, h, class, rest, kids, b);
            assert forall|i: int| 0 <= i < stack2.len() implies h(#[trigger] stack2[i]) < b by {
                if i < rest.len() {
                    assert(stack2[i] == rest[i]);
                } else {
                    assert(stack2[i] == kids[i - rest.len()]);
                }
            }
            lemma_run_search(tree, h, class, max, a.0, stack2, b, (fuel - 1) as nat);
            assert(a.0 == found + hits);
            assert(found + hits + take_at_most(below + others, m - hits.len()) =~= found + (hits + take_at_most(
                below + others,
                m - hits.len(),
            )));
        }
    }
}

/// The finished search below `root` of a tree (each node's children lie
/// lower by `h`), given enough steps, gives the first `max` instances of the
/// class below `root` in search order: never more than `max`, and all of
/// them when there are fewer.
pub proof fn law_search_finds_matches(
    tree: spec_fn(u64) -> Seq<Classed>,
    h: spec_fn(u64) -> nat,
    class: Seq<char>,
    max: nat,
    root: u64,
    fuel: nat,
)
    requires
        lower(tree, h),
        fuel >= size_below(tree, h, root),
    ensures
        run_search(tree, class, max, seq![], seq![root], fuel) == take_at_most(
            matches_below(tree, h, class, root),
            max as int,
        ),
        run_search(tree, class, max, seq![], seq![root], fuel).len() <= max,
        matches_below(tree, h, class, root).len() <= max ==> run_search(tree, class, max, seq![], seq![root], fuel)
            == matches_below(tree, h, class, root),
{
    let b = h(root) + 1;
    let st = seq![root];
    assert(st.drop_last() =~= Seq::<u64>::empty());
    assert(st.last() == root);
    assert(stack_matches(tree, h, class, st.drop_last(), b) == Seq::<u64>::empty());
    assert(stack_size(tree, h, st.drop_last(), b) == 0);
    assert(stack_matches(tree, h, class, st, b) == matches_below(tree, h, class, root) + Seq::<u64>::empty());
    assert(stack_matches(tree, h, class, st, b) =~= matches_below(tree, h, class, root));
    assert(stack_size(tree, h, st, b) == size_below(tree, h, root));
    lemma_run_search(tree, h, class, max, seq![], st, b, fuel);
    assert(Seq::<u64>::empty() + take_at_most(matches_below(tree, h, class, root), max as int) =~= take_at_most(
        matches_below(tree, h, class, root),
        max as int,
    ));
}

/// No instance is the child of two nodes, nor twice the child of one.
pub open spec fn unique_parents(tree: spec_fn(u64) -> Seq<Classed>) -> bool {
    forall|p: u64, q: u64, i: int, j: int|
        #![trigger tree(p)[i], tree(q)[j]]
        0 <= i < tree(p).len() && 0 <= j < tree(q).len() && tree(p)[i].addr == tree(q)[j].addr ==> p == q && i == j
}

/// No address occurs twice.
pub open spec fn distinct(s: Seq<u64>) -> bool {
    forall|i: int, j: int| 0 <= i < j < s.len() ==> s[i] != s[j]
}

/// The nodes of the subtree of `n`.
pub open spec fn subtree(tree: spec_fn(u64) -> Seq<Classed>, h: spec_fn(u64) -> nat, n: u64) -> Set<u64>
    decreases h(n) + 1, 0nat,
{
    set![n] + stack_nodes(tree, h, kid_addrs(tree(n)), h(n))
}

/// The nodes of the subtrees of the nodes of a stack (all lower than `b`).
pub open spec fn stack_nodes(tree: spec_fn(u64) -> Seq<Classed>, h: spec_fn(u64) -> nat, s: Seq<u64>, b: nat) -> Set<u64>
    decreases b, s.len(),
{
    if s.len() == 0 {
        Set::empty()
    } else if h(s.last()) < b {
        subtree(tree, h, s.last()) + stack_nodes(tree, h, s.drop_last(), b)
    } else {
        Set::empty()
    }
}

proof fn lemma_stack_nodes_mem(tree: spec_fn(u64) -> Seq<Classed>, h: spec_fn(u64) -> nat, s: Seq<u64>, b: nat, y: u64)
    requires
        forall|i: int| 0 <= i < s.len() ==> h(#[trigger] s[i]) < b,
    ensures
        stack_nodes(tree, h, s, b).contains(y) == exists|i: int| 0 <= i < s.len() && subtree(tree, h, #[trigger] s[i]).contains(y),
    decreases s.len(),
{
    if s.len() > 0 {
        let r = s.drop_last();
        assert(forall|i: int| 0 <= i < r.len() ==> r[i] == s[i]);
        lemma_stack_nodes_mem(tree, h, r, b, y);
        assert(h(s[s.len() - 1]) < b);
        if subtree(tree, h, s.last()).contains(y) {
            assert(subtree(tree, h, s[s.len() - 1]).contains(y));
        } else if exists|i: int| 0 <= i < s.len() && subtree(tree, h, #[trigger] s[i]).contains(y) {
            let i = choose|i: int| 0 <= i < s.len() && subtree(tree, h, #[trigger] s[i]).contains(y);
            assert(i < r.len());
            assert(subtree(tree, h, r[i]).contains(y));
        }
    }
}

proof fn lemma_stack_matches_mem(
    tree: spec_fn(u64) -> Seq<Classed>,
    h: spec_fn(u64) -> nat,
    class: Seq<char>,
    s: Seq<u64>,
    b: nat,
    x: u64,
)
    requires
        forall|i: int| 0 <= i < s.len() ==> h(#[trigger] s[i]) < b,
    ensures
        stack_matches(tree, h, class, s, b).contains(x) == exists|i: int|
            0 <= i < s.len() && matches_below(tree, h, class, #[trigger] s[i]).contains(x),
    decreases s.len(),
{
    if s.len() > 0 {
        let r = s.drop_last();
        assert(forall|i: int| 0 <= i < r.len() ==> r[i] == s[i]);
        lemma_stack_matches_mem(tree, h, class, r, b, x);
        assert(h(s[s.len() - 1]) < b);
        let mb = matches_below(tree, h, class, s.last());
        let rest = stack_matches(tree, h, class, r, b);
        assert(stack_matches(tree, h, class, s, b) == mb + rest);
        if (mb + rest).contains(x) {
            let k = choose|k: int| 0 <= k < (mb + rest).len() && (mb + rest)[k] == x;
            if k < mb.len() {
                assert(mb[k] == x);
                assert(matches_below(tree, h, class, s[s.len() - 1]).contains(x));
            } else {
                assert(rest[k - mb.len()] == x);
                assert(rest.contains(x));
            }
        }
        if exists|i: int| 0 <= i < s.len() && matches_below(tree, h, class, #[trigger] s[i]).contains(x) {
            let i = choose|i: int| 0 <= i < s.len() && matches_below(tree, h, class, #[trigger] s[i]).contains(x);
            if i == s.len() - 1 {
                let k = choose|k: int| 0 <= k < mb.len() && mb[k] == x;
                assert((mb + rest)[k] == x);
            } else {
                assert(matches_below(tree, h, class, r[i]).contains(x));
                let k = choose|k: int| 0 <= k < rest.len() && rest[k] == x;
                assert((mb + rest)[mb.len() + k] == x);
            }
        }
    }
}

/// The children of `n` lie lower than `n`.
proof fn lemma_kids_lower(tree: spec_fn(u64) -> Seq<Classed>, h: spec_fn(u64) -> nat, n: u64)
    requires
        lower(tree, h),
    ensures
        forall|i: int| 0 <= i < kid_addrs(tree(n)).len() ==> h(#[trigger] kid_addrs(tree(n))[i]) < h(n)
            && kid_addrs(tree(n))[i] == tree(n)[i].addr,
{
    assert forall|i: int| 0 <= i < kid_addrs(tree(n)).len() implies h(#[trigger] kid_addrs(tree(n))[i]) < h(n)
        && kid_addrs(tree(n))[i] == tree(n)[i].addr by {
        assert(h(tree(n)[i].addr) < h(n));
    }
}

/// A node of a subtree is no higher than the subtree's root.
proof fn lemma_subtree_height(tree: spec_fn(u64) -> Seq<Classed>, h: spec_fn(u64) -> nat, c: u64, y: u64)
    requires
        lower(tree, h),
        subtree(tree, h, c).contains(y),
    ensures
        h(y) <= h(c),
    decreases h(c),
{
    if y != c {
        let kids = kid_addrs(tree(c));
        lemma_kids_lower(tree, h, c);
        lemma_stack_nodes_mem(tree, h, kids, h(c), y);
        let i = choose|i: int| 0 <= i < kids.len() && subtree(tree, h, #[trigger] kids[i]).contains(y);
        lemma_subtree_height(tree, h, kids[i], y);
    }
}

/// A kid's subtree lies within its parent's.
proof fn lemma_kid_subtree(tree: spec_fn(u64) -> Seq<Classed>, h: spec_fn(u64) -> nat, c: u64, i: int, y: u64)
    requires
        lower(tree, h),
        0 <= i < tree(c).len(),
        subtree(tree, h, tree(c)[i].addr).contains(y),
    ensures
        subtree(tree, h, c).contains(y),
{
    let kids = kid_addrs(tree(c));
    lemma_kids_lower(tree, h, c);
    lemma_stack_nodes_mem(tree, h, kids, h(c), y);
    assert(subtree(tree, h, kids[i]).contains(y));
}

/// A node of a subtree other than its root has its parent in the subtree.
proof fn lemma_parent(tree: spec_fn(u64) -> Seq<Classed>, h: spec_fn(u64) -> nat, c: u64, y: u64) -> (r: (u64, int))
    requires
        lower(tree, h),
        subtree(tree, h, c).contains(y),
        y != c,
    ensures
        subtree(tree, h, c).contains(r.0),
        0 <= r.1 < tree(r.0).len(),
        tree(r.0)[r.1].addr == y,
    decreases h(c),
{
    let kids = kid_addrs(tree(c));
    lemma_kids_lower(tree, h, c);
    lemma_stack_nodes_mem(tree, h, kids, h(c), y);
    let i = choose|i: int| 0 <= i < kids.len() && subtree(tree, h, #[trigger] kids[i]).contains(y);
    if y == kids[i] {
        (c, i)
    } else {
        let r = lemma_parent(tree, h, kids[i], y);
        lemma_kid_subtree(tree, h, c, i, r.0);
        r
    }
}

/// The subtrees of two different children of one node share no node.
proof fn lemma_siblings_disjoint(
    tree: spec_fn(u64) -> Seq<Classed>,
    h: spec_fn(u64) -> nat,
    n: u64,
    i: int,
    j: int,
    y: u64,
)
    requires
        lower(tree, h),
        unique_parents(tree),
        0 <= i < tree(n).len(),
        0 <= j < tree(n).len(),
        i != j,
    ensures
        !(subtree(tree, h, tree(n)[i].addr).contains(y) && subtree(tree, h, tree(n)[j].addr).contains(y)),
    decreases h(tree(n)[i].addr) - h(y),
{
    let c1 = tree(n)[i].addr;
    let c2 = tree(n)[j].addr;
    if subtree(tree, h, c1).contains(y) && subtree(tree, h, c2).contains(y) {
        lemma_subtree_height(tree, h, c1, y);
        assert(c1 != c2);
        assert(h(c1) < h(n) && h(c2) < h(n));
        if y == c1 {
            let (p, k) = lemma_parent(tree, h, c2, c1);
            assert(tree(p)[k].addr == tree(n)[i].addr);
            lemma_subtree_height(tree, h, c2, p);
        } else if y == c2 {
            let (p, k) = lemma_parent(tree, h, c1, c2);
            assert(tree(p)[k].addr == tree(n)[j].addr);
            lemma_subtree_height(tree, h, c1, p);
        } else {
            let (p1, k1) = lemma_parent(tree, h, c1, y);
            let (p2, k2) = lemma_parent(tree, h, c2, y);
            assert(tree(p1)[k1].addr == tree(p2)[k2].addr);
            assert(h(tree(p1)[k1].addr) < h(p1));
            lemma_subtree_height(tree, h, c1, p1);
            lemma_siblings_disjoint(tree, h, n, i, j, p1);
        }
    }
}

/// Where the `k`-th hit of `class_hits(ks, class)` stands in `ks`.
spec fn hit_pos(ks: Seq<Classed>, class: Seq<char>, k: int) -> int
    decreases ks.len(),
{
    if ks.len() == 0 {
        0
    } else if k < class_hits(ks.drop_last(), class).len() {
        hit_pos(ks.drop_last(), class, k)
    } else {
        ks.len() - 1
    }
}

proof fn lemma_hit_pos(ks: Seq<Classed>, class: Seq<char>, j: int, k: int)
    requires
        0 <= j <= k < class_hits(ks, class).len(),
    ensures
        0 <= hit_pos(ks, class, k) < ks.len(),
        ks[hit_pos(ks, class, k)].addr == class_hits(ks, class)[k],
        of_class(ks[hit_pos(ks, class, k)], class),
        j < k ==> hit_pos(ks, class, j) < hit_pos(ks, class, k),
    decreases ks.len(),
{
    let r = ks.drop_last();
    let rest = class_hits(r, class);
    if k < rest.len() {
        lemma_hit_pos(r, class, j, k);
        assert(class_hits(ks, class)[k] == rest[k]);
        assert(ks[hit_pos(r, class, k)] == r[hit_pos(r, class, k)]);
    } else if j < rest.len() {
        lemma_hit_pos(r, class, j, j);
    }
}

/// The hits among distinct children are distinct.
proof fn lemma_hits_distinct(ks: Seq<Classed>, class: Seq<char>)
    requires
        forall|a: int, b: int| 0 <= a < b < ks.len() ==> ks[a].addr != ks[b].addr,
    ensures
        distinct(class_hits(ks, class)),
{
    let hs = class_hits(ks, class);
    assert forall|a: int, b: int| 0 <= a < b < hs.len() implies hs[a] != hs[b] by {
        lemma_hit_pos(ks, class, a, b);
        lemma_hit_pos(ks, class, a, a);
    }
}

/// Every match below `c` lies in its subtree and lower than `c`.
proof fn lemma_matches_in_subtree(
    tree: spec_fn(u64) -> Seq<Classed>,
    h: spec_fn(u64) -> nat,
    class: Seq<char>,
    c: u64,
    x: u64,
)
    requires
        lower(tree, h),
        matches_below(tree, h, class, c).contains(x),
    ensures
        subtree(tree, h, c).contains(x),
        h(x) < h(c),
        exists|p: u64, i: int|
            #![trigger tree(p)[i]]
            subtree(tree, h, c).contains(p) && 0 <= i < tree(p).len() && tree(p)[i].addr == x && of_class(
                tree(p)[i],
                class,
            ),
    decreases h(c),
{
    let ks = tree(c);
    let kids = kid_addrs(ks);
    lemma_kids_lower(tree, h, c);
    let hs = class_hits(ks, class);
    let sm = stack_matches(tree, h, class, kids, h(c));
    let k = choose|k: int| 0 <= k < (hs + sm).len() && (hs + sm)[k] == x;
    if k < hs.len() {
        lemma_hit_pos(ks, class, k, k);
        let i = hit_pos(ks, class, k);
        assert(hs[k] == x);
        assert(subtree(tree, h, tree(c)[i].addr).contains(x));
        lemma_kid_subtree(tree, h, c, i, x);
        assert(subtree(tree, h, c).contains(c));
        assert(tree(c)[i].addr == x && of_class(tree(c)[i], class));
    } else {
        assert(sm[k - hs.len()] == x);
        lemma_stack_matches_mem(tree, h, class, kids, h(c), x);
        let i = choose|i: int| 0 <= i < kids.len() && matches_below(tree, h, class, #[trigger] kids[i]).contains(x);
        lemma_matches_in_subtree(tree, h, class, kids[i], x);
        lemma_kid_subtree(tree, h, c, i, x);
        let (p, q) = choose|p: u64, q: int|
            #![trigger tree(p)[q]]
            subtree(tree, h, kids[i]).contains(p) && 0 <= q < tree(p).len() && tree(p)[q].addr == x && of_class(
                tree(p)[q],
                class,
            );
        lemma_kid_subtree(tree, h, c, i, p);
        assert(tree(p)[q].addr == x);
    }
}

proof fn lemma_distinct_concat(x: Seq<u64>, y: Seq<u64>)
    requires
        distinct(x),
        distinct(y),
        forall|k: int| 0 <= k < y.len() ==> !x.contains(#[trigger] y[k]),
    ensures
        distinct(x + y),
{
    assert forall|a: int, b: int| 0 <= a < b < (x + y).len() implies (x + y)[a] != (x + y)[b] by {
        if a < x.len() && b >= x.len() {
            assert((x + y)[b] == y[b - x.len()]);
            assert((x + y)[a] == x[a]);
            if x[a] == y[b - x.len()] {
                assert(x.contains(y[b - x.len()]));
            }
        } else if a >= x.len() {
            assert((x + y)[a] == y[a - x.len()]);
            assert((x + y)[b] == y[b - x.len()]);
        }
    }
}

/// On a tree, the matches below a node are distinct.
proof fn lemma_matches_distinct(tree: spec_fn(u64) -> Seq<Classed>, h: spec_fn(u64) -> nat, class: Seq<char>, c: u64)
    requires
        lower(tree, h),
        unique_parents(tree),
    ensures
        distinct(matches_below(tree, h, class, c)),
    decreases h(c), 1nat,
{
    let ks = tree(c);
    let kids = kid_addrs(ks);
    lemma_kids_lower(tree, h, c);
    assert forall|a: int, b: int| 0 <= a < b < ks.len() implies ks[a].addr != ks[b].addr by {
        if ks[a].addr == ks[b].addr {
            assert(tree(c)[a].addr == tree(c)[b].addr);
        }
    }
    lemma_hits_distinct(ks, class);
    lemma_stack_distinct(tree, h, class, c, kids.len() as int);
    assert(kids.take(kids.len() as int) =~= kids);
    let hs = class_hits(ks, class);
    let sm = stack_matches(tree, h, class, kids, h(c));
    assert forall|k: int| 0 <= k < sm.len() implies !hs.contains(#[trigger] sm[k]) by {
        let x = sm[k];
        if hs.contains(x) {
            let a = choose|a: int| 0 <= a < hs.len() && hs[a] == x;
            lemma_hit_pos(ks, class, a, a);
            let i = hit_pos(ks, class, a);
            assert(sm.contains(x));
            lemma_stack_matches_mem(tree, h, class, kids, h(c), x);
            let j = choose|j: int| 0 <= j < kids.len() && matches_below(tree, h, class, #[trigger] kids[j]).contains(x);
            lemma_matches_in_subtree(tree, h, class, kids[j], x);
            if i == j {
                assert(h(x) < h(kids[j]));
            } else {
                assert(subtree(tree, h, tree(c)[i].addr).contains(x));
                assert(subtree(tree, h, tree(c)[j].addr).contains(x));
                lemma_siblings_disjoint(tree, h, c, i, j, x);
            }
        }
    }
    lemma_distinct_concat(hs, sm);
}

/// The matches below the first `t` children of `c` are distinct.
proof fn lemma_stack_distinct(
    tree: spec_fn(u64) -> Seq<Classed>,
    h: spec_fn(u64) -> nat,
    class: Seq<char>,
    c: u64,
    t: int,
)
    requires
        lower(tree, h),
        unique_parents(tree),
        0 <= t <= tree(c).len(),
    ensures
        distinct(stack_matches(tree, h, class, kid_addrs(tree(c)).take(t), h(c))),
    decreases h(c), 0nat, t,
{
    let kids = kid_addrs(tree(c));
    lemma_kids_lower(tree, h, c);
    let s = kids.take(t);
    if t > 0 {
        lemma_stack_distinct(tree, h, class, c, t - 1);
        assert(s.drop_last() =~= kids.take(t - 1));
        assert(s.last() == kids[t - 1]);
        assert(h(s.last()) < h(c));
        lemma_matches_distinct(tree, h, class, kids[t - 1]);
        let mb = matches_below(tree, h, class, kids[t - 1]);
        let rest = stack_matches(tree, h, class, kids.take(t - 1), h(c));
        assert forall|i: int| 0 <= i < kids.take(t - 1).len() implies h(#[trigger] kids.take(t - 1)[i]) < h(c) by {
            assert(kids.take(t - 1)[i] == kids[i]);
        }
        assert forall|k: int| 0 <= k < rest.len() implies !mb.contains(#[trigger] rest[k]) by {
            let x = rest[k];
            if mb.contains(x) {
                assert(rest.contains(x));
                lemma_stack_matches_mem(tree, h, class, kids.take(t - 1), h(c), x);
                let j = choose|j: int| 0 <= j < kids.take(t - 1).len() && matches_below(tree, h, class, #[trigger] kids.take(t - 1)[j]).contains(x);
                assert(kids.take(t - 1)[j] == kids[j]);
                lemma_matches_in_subtree(tree, h, class, kids[j], x);
                lemma_matches_in_subtree(tree, h, class, kids[t - 1], x);
                assert(subtree(tree, h, tree(c)[j].addr).contains(x));
                assert(subtree(tree, h, tree(c)[t - 1].addr).contains(x));
                lemma_siblings_disjoint(tree, h, c, j, t - 1, x);
            }
        }
        lemma_distinct_concat(mb, rest);
    }
}

/// On a tree (each instance the child of one node only), the finished search
/// finds no instance twice.
pub proof fn law_search_no_duplicates(
    tree: spec_fn(u64) -> Seq<Classed>,
    h: spec_fn(u64) -> nat,
    class: Seq<char>,
    max: nat,
    root: u64,
    fuel: nat,
)
    requires
        lower(tree, h),
        unique_parents(tree),
        fuel >= size_below(tree, h, root),
    ensures
        distinct(run_search(tree, class, max, seq![], seq![root], fuel)),
{
    law_search_finds_matches(tree, h, class, max, root, fuel);
    lemma_matches_distinct(tree, h, class, root);
    let mb = matches_below(tree, h, class, root);
    if mb.len() > max {
        assert forall|i: int, j: int| 0 <= i < j < mb.take(max as int).len() implies mb.take(max as int)[i] != mb.take(
            max as int,
        )[j] by {
            assert(mb.take(max as int)[i] == mb[i]);
            assert(mb.take(max as int)[j] == mb[j]);
        }
    }
}

/// Each instance the finished search gives lies below `root` (never `root`
/// itself) and is a child, of the class, of a node below `root` or of
/// `root`.
pub proof fn law_search_finds_descendants(
    tree: spec_fn(u64) -> Seq<Classed>,
    h: spec_fn(u64) -> nat,
    class: Seq<char>,
    max: nat,
    root: u64,
    fuel: nat,
    k: int,
)
    requires
        lower(tree, h),
        fuel >= size_below(tree, h, root),
        0 <= k < run_search(tree, class, max, seq![], seq![root], fuel).len(),
    ensures
        ({
            let x = run_search(tree, class, max, seq![], seq![root], fuel)[k];
            &&& subtree(tree, h, root).contains(x)
            &&& x != root
            &&& exists|p: u64, i: int|
                #![trigger tree(p)[i]]
                subtree(tree, h, root).contains(p) && 0 <= i < tree(p).len() && tree(p)[i].addr == x && of_class(
                    tree(p)[i],
                    class,
                )
        }),
{
    law_search_finds_matches(tree, h, class, max, root, fuel);
    let mb = matches_below(tree, h, class, root);
    let x = run_search(tree, class, max, seq![], seq![root], fuel)[k];
    assert(x == mb[k]);
    assert(mb.contains(x));
    lemma_matches_in_subtree(tree, h, class, root, x);
}

/// A depth-first search below an instance for the instances of one class:
/// the node on top of the stack is taken off (`next`), its children are
/// read and handed back (`feed`), until `max` are found or the stack is
/// empty.
pub struct InstanceSearch {
    stack: Vec<u64>,
    found: Vec<u64>,
    class: String,
    max: usize,
}

impl InstanceSearch {
    pub closed spec fn stack_view(&self) -> Seq<u64> {
        self.stack@
    }

    pub closed spec fn found_view(&self) -> Seq<u64> {
        self.found@
    }

    pub closed spec fn class_view(&self) -> Seq<char> {
        self.class@
    }

    pub closed spec fn max_view(&self) -> nat {
        self.max as nat
    }

    /// A search below `root` for at most `max` instances of class `class`.
    pub fn new(root: u64, class: String, max: usize) -> (s: Self)
        ensures
            s.stack_view() == seq![root],
            s.found_view() == Seq::<u64>::empty(),
            s.class_view() == class@,
            s.max_view() == max,
    {
        let mut stack: Vec<u64> = Vec::new();
        stack.push(root);
        InstanceSearch { stack, found: Vec::new(), class, max }
    }

    /// The node whose children are to be read next, taken off the stack;
    /// `None` once `max` are found or the stack is empty.
    pub fn next(&mut self) -> (r: Option<u64>)
        ensures
            final(self).found_view() == old(self).found_view(),
            final(self).class_view() == old(self).class_view(),
            final(self).max_view() == old(self).max_view(),
            old(self).found_view().len() >= old(self).max_view() || old(self).stack_view().len() == 0 ==> r is None
                && final(self).stack_view() == old(self).stack_view(),
            !(old(self).found_view().len() >= old(self).max_view() || old(self).stack_view().len() == 0) ==> r
                == Some(old(self).stack_view().last()) && final(self).stack_view() == old(
                self,
            ).stack_view().drop_last(),
    {
        if self.found.len() >= self.max {
            return None;
        }
        self.stack.pop()
    }

    /// Hands over the children of the node that `next` gave, in list order.
    pub fn feed(&mut self, kids: &Vec<Classed>)
        ensures
            final(self).class_view() == old(self).class_view(),
            final(self).max_view() == old(self).max_view(),
            final(self).found_view() == absorb(
                old(self).found_view(),
                old(self).stack_view(),
                kids@,
                old(self).class_view(),
                old(self).max_view(),
            ).0,
            final(self).stack_view() == absorb(
                old(self).found_view(),
                old(self).stack_view(),
                kids@,
                old(self).class_view(),
                old(self).max_view(),
            ).1,
    {
        let ghost f0 = self.found@;
        let ghost s0 = self.stack@;
        let mut stopped = self.found.len() >= self.max;
        let mut j: usize = 0;
        while j < kids.len()
            invariant
                j <= kids@.len(),
                self.class == old(self).class,
                self.max == old(self).max,
                absorb(f0, s0, kids@.take(j as int), self.class@, self.max as nat) == (self.found@, self.stack@, stopped),
            decreases kids@.len() - j,
        {
            proof {
                assert(kids@.take(j + 1).drop_last() =~= kids@.take(j as int));
                assert(kids@.take(j + 1).last() == kids@[j as int]);
            }
            if !stopped {
                let k = &kids[j];
                let hit = match &k.class {
                    Some(n) => str_eq(n.as_str(), self.class.as_str()),
                    None => false,
                };
                if hit {
                    self.found.push(k.addr);
                    if self.found.len() >= self.max {
                        stopped = true;
                    } else {
                        self.stack.push(k.addr);
                    }
                } else {
                    self.stack.push(k.addr);
                }
            }
            j = j + 1;
        }
        proof {
            assert(kids@.take(kids@.len() as int) =~= kids@);
        }
    }

    /// What was found so far.
    pub fn found(&self) -> (r: Vec<u64>)
        ensures
            r@ == self.found_view(),
    {
        self.found.clone()
    }
}

} // verus!
