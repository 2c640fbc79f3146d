//! The conflict analysis: walking the program and its undead-set tree in
//! lock-step, recording for each instruction's primary location the
//! locations live at that point, less the primary itself and less the
//! location its operand reads.
//!
//! Edges are directional and operand-excluding by design: the remainder is
//! recorded under the primary's key only, overwriting any earlier entry for
//! that key, and no edge is added towards the location the instruction
//! reads.

use vstd::prelude::*;

use crate::asm_pred_lang::{
    locals_of, program_info, program_tail, triv_alocs, AsmLang, Effect, Info, Pred, Tail, Triv, P,
};
use crate::graph::Graph;
use crate::sets::AlocSet;
use crate::undead::{undead_effect_model, undead_effects_model, undead_pred_model, undead_tail_model};
use crate::ust::{node_view, node_wf, nodes_view, Node, NodeS};

verus! {

/// The graph that maps every member of `locals` to an empty neighbour set.
pub open spec fn empty_graph_of(locals: Set<int>) -> Map<int, Set<int>> {
    Map::new(|x: int| locals.contains(x), |x: int| Set::empty())
}

/// How many nodes of an undead-set tree a predicate owns.
pub open spec fn pred_node_count(p: Pred) -> int
    decreases p,
{
    match p {
        Pred::Compare { relop, aloc, triv } => 1,
        Pred::True => 0,
        Pred::False => 0,
        Pred::Not(pred) => pred_node_count(*pred),
        Pred::Begin { effects, pred } => 1,
        Pred::IfElse { pred1, pred2, pred3 } => 1,
    }
}

/// A predicate owns exactly `pred_node_count` nodes.
pub proof fn lemma_undead_pred_len(p: Pred, live: Set<int>)
    ensures
        undead_pred_model(p, live).0.len() == pred_node_count(p),
    decreases p,
{
    match p {
        Pred::Not(pred) => lemma_undead_pred_len(*pred, live),
        Pred::IfElse { pred1, pred2, pred3 } => {
            let l2 = undead_pred_model(*pred2, live).1;
            let l3 = undead_pred_model(*pred3, live).1;
            lemma_undead_pred_len(*pred1, l2.union(l3));
        },
        _ => {},
    }
}

/// A run of effects owns exactly one node each.
pub proof fn lemma_undead_effects_len(es: Seq<Effect>, live: Set<int>)
    ensures
        undead_effects_model(es, live).0.len() == es.len(),
    decreases es.len(),
{
    if es.len() > 0 {
        lemma_undead_effects_len(es.subrange(1, es.len() as int), live);
    }
}

/// The conflicts a tail contributes, given the set live after it.
pub open spec fn conf_tail_model(t: Tail, live: Set<int>, g: Map<int, Set<int>>) -> Map<
    int,
    Set<int>,
>
    decreases t, 0int,
{
    match t {
        Tail::Halt(triv) => g,
        Tail::Begin { effects, tail } => {
            let tl = undead_tail_model(*tail, live).1;
            let g1 = conf_tail_model(*tail, live, g);
            conf_effects_model(effects@, tl, g1)
        },
        Tail::IfElse { pred, tail1, tail2 } => {
            let l1 = undead_tail_model(*tail1, live).1;
            let l2 = undead_tail_model(*tail2, live).1;
            let g1 = conf_pred_model(pred, l1.union(l2), g);
            let g2 = conf_tail_model(*tail1, live, g1);
            conf_tail_model(*tail2, live, g2)
        },
    }
}

/// The conflicts a run of effects contributes, given the set live after the
/// whole run.
pub open spec fn conf_effects_model(es: Seq<Effect>, live: Set<int>, g: Map<int, Set<int>>) -> Map<
    int,
    Set<int>,
>
    decreases es, es.len(),
{
    if es.len() == 0 {
        g
    } else {
        let rest = es.subrange(1, es.len() as int);
        let rest_live = undead_effects_model(rest, live).1;
        let g1 = conf_effect_model(es[0], rest_live, g);
        conf_effects_model(rest, live, g1)
    }
}

pub open spec fn conf_effect_model(e: Effect, live: Set<int>, g: Map<int, Set<int>>) -> Map<
    int,
    Set<int>,
>
    decreases e, 0int,
{
    match e {
        Effect::Assign { aloc, triv } => g.insert(
            aloc.index as int,
            live.remove(aloc.index as int).difference(triv_alocs(triv)),
        ),
        Effect::AssignBinop { aloc, binop, triv } => g.insert(
            aloc.index as int,
            live.remove(aloc.index as int).difference(triv_alocs(triv)),
        ),
        Effect::Begin(effects) => conf_effects_model(effects@, live, g),
        Effect::IfElse { pred, effect1, effect2 } => {
            let l1 = undead_effect_model(*effect1, live).1;
            let l2 = undead_effect_model(*effect2, live).1;
            let g1 = conf_pred_model(pred, l1.union(l2), g);
            let g2 = conf_effect_model(*effect1, live, g1);
            conf_effect_model(*effect2, live, g2)
        },
    }
}

pub open spec fn conf_pred_model(p: Pred, live: Set<int>, g: Map<int, Set<int>>) -> Map<
    int,
    Set<int>,
>
    decreases p, 0int,
{
    match p {
        Pred::Compare { relop, aloc, triv } => g.insert(
            aloc.index as int,
            live.remove(aloc.index as int).difference(triv_alocs(triv)),
        ),
        Pred::True => g,
        Pred::False => g,
        Pred::Not(pred) => conf_pred_model(*pred, live, g),
        Pred::Begin { effects, pred } => {
            let pl = undead_pred_model(*pred, live).1;
            let g1 = conf_effects_model(effects@, pl, g);
            conf_pred_model(*pred, live, g1)
        },
        Pred::IfElse { pred1, pred2, pred3 } => {
            let l2 = undead_pred_model(*pred2, live).1;
            let l3 = undead_pred_model(*pred3, live).1;
            let g1 = conf_pred_model(*pred1, l2.union(l3), g);
            let g2 = conf_pred_model(*pred2, live, g1);
            conf_pred_model(*pred3, live, g2)
        },
    }
}

impl AsmLang {
    /// Decorates the program with its conflict graph, built from the locals
    /// set and the undead-set tree that the earlier passes computed.
    pub fn conflict_analysis(self) -> (r: AsmLang)
        requires
            program_info(self.0).locals matches Some(l) && l.wf(),
            program_info(self.0).undead_out matches Some(n) && node_wf(n) && node_view(n)
                == undead_tail_model(program_tail(self.0), Set::empty()).0,
        ensures
            program_tail(r.0) == program_tail(self.0),
            program_info(r.0).locals == program_info(self.0).locals,
            program_info(r.0).undead_out == program_info(self.0).undead_out,
            program_info(r.0).assignment == program_info(self.0).assignment,
            program_info(r.0).conflicts matches Some(g) && g.wf() && g@ == conf_tail_model(
                program_tail(self.0),
                Set::empty(),
                empty_graph_of(locals_of(program_info(self.0))@),
            ),
    {
        let AsmLang(p) = self;
        match p {
            P::Module { info, tail } => {
                let Info { locals, assignment, undead_out, conflicts: _ } = info;
                match (locals, undead_out) {
                    (Some(l), Some(n)) => {
                        let g0 = Graph::new_from(&l);
                        proof {
                            assert(g0@ =~= empty_graph_of(l@));
                        }
                        let g = conf_tail(&tail, &n, g0, Ghost(Set::empty()));
                        let info = Info {
                            locals: Some(l),
                            assignment,
                            undead_out: Some(n),
                            conflicts: Some(g),
                        };
                        AsmLang(P::Module { info, tail })
                    },
                    (locals, undead_out) => {
                        let info = Info { locals, assignment, undead_out, conflicts: None };
                        AsmLang(P::Module { info, tail })
                    },
                }
            },
        }
    }
}

fn conf_tail(t: &Tail, n: &Node, g: Graph, Ghost(live): Ghost<Set<int>>) -> (r: Graph)
    requires
        g.wf(),
        node_wf(*n),
        node_view(*n) == undead_tail_model(*t, live).0,
    ensures
        r.wf(),
        r@ == conf_tail_model(*t, live, g@),
    decreases *t, 0int,
{
    match t {
        Tail::Halt(_) => g,
        Tail::Begin { effects, tail } => {
            match n {
                Node::Tree { nodes } => {
                    let ghost tl = undead_tail_model(**tail, live).1;
                    let ghost ens = undead_effects_model(effects@, tl).0;
                    let ghost tn = undead_tail_model(**tail, live).0;
                    proof {
                        crate::ust::lemma_nodes_view_len(nodes@);
                        lemma_undead_effects_len(effects@, tl);
                        assert(nodes_view(nodes@) == ens.push(tn));
                        assert(nodes@.len() == effects@.len() + 1);
                        crate::ust::lemma_nodes_view_index(nodes@, effects@.len() as int);
                    }
                    let tail_node = &nodes[effects.len()];
                    let g1 = conf_tail(tail, tail_node, g, Ghost(live));
                    proof {
                        assert forall|i: int| 0 <= i < effects@.len() implies node_view(
                            #[trigger] nodes@[i],
                        ) == undead_effects_model(
                            effects@.subrange(0, effects@.len() as int),
                            tl,
                        ).0[i - 0] && node_wf(nodes@[i]) by {
                            crate::ust::lemma_nodes_view_index(nodes@, i);
                            assert(effects@.subrange(0, effects@.len() as int) =~= effects@);
                        }
                        assert(effects@.subrange(0, effects@.len() as int) =~= effects@);
                    }
                    conf_effects(effects, 0, nodes, g1, Ghost(tl))
                },
                Node::Leaf { .. } => g,
            }
        },
        Tail::IfElse { pred, tail1, tail2 } => {
            match n {
                Node::Tree { nodes } => {
                    let ghost l1 = undead_tail_model(**tail1, live).1;
                    let ghost l2 = undead_tail_model(**tail2, live).1;
                    let ghost n1 = undead_tail_model(**tail1, live).0;
                    let ghost n2 = undead_tail_model(**tail2, live).0;
                    let ghost pns = undead_pred_model(*pred, l1.union(l2)).0;
                    proof {
                        crate::ust::lemma_nodes_view_len(nodes@);
                        lemma_undead_pred_len(*pred, l1.union(l2));
                        assert(nodes_view(nodes@) == pns.push(n1).push(n2));
                        assert(nodes@.len() == pred_node_count(*pred) + 2);
                        assert forall|i: int| 0 <= i < nodes@.len() implies node_view(
                            #[trigger] nodes@[i],
                        ) == pns.push(n1).push(n2)[i] by {
                            crate::ust::lemma_nodes_view_index(nodes@, i);
                        }
                    }
                    if nodes.len() < 2 {
                        return g;
                    }
                    let g1 = conf_pred(pred, nodes, 0, g, Ghost(l1.union(l2)));
                    let g2 = conf_tail(tail1, &nodes[nodes.len() - 2], g1, Ghost(live));
                    conf_tail(tail2, &nodes[nodes.len() - 1], g2, Ghost(live))
                },
                Node::Leaf { .. } => g,
            }
        },
    }
}

/// Records the conflicts of `es[k..]` against the nodes at the same
/// positions; `live` is the set live after the whole run.
fn conf_effects(
    es: &Vec<Effect>,
    k: usize,
    nodes: &Vec<Node>,
    g: Graph,
    Ghost(live): Ghost<Set<int>>,
) -> (r: Graph)
    requires
        g.wf(),
        k <= es@.len(),
        es@.len() <= nodes@.len(),
        forall|i: int| k <= i < es@.len() ==> node_wf(#[trigger] nodes@[i]),
        forall|i: int|
            k <= i < es@.len() ==> node_view(#[trigger] nodes@[i]) == undead_effects_model(
                es@.subrange(k as int, es@.len() as int),
                live,
            ).0[i - k],
    ensures
        r.wf(),
        r@ == conf_effects_model(es@.subrange(k as int, es@.len() as int), live, g@),
    decreases es@, es@.len() - k,
{
    if k == es.len() {
        proof {
            assert(es@.subrange(k as int, es@.len() as int) =~= Seq::<Effect>::empty());
        }
        g
    } else {
        let ghost sub = es@.subrange(k as int, es@.len() as int);
        let ghost rest = es@.subrange(k + 1, es@.len() as int);
        let ghost rest_live = undead_effects_model(rest, live).1;
        proof {
            assert(sub.subrange(1, sub.len() as int) =~= rest);
            assert(sub[0] == es@[k as int]);
            lemma_undead_effects_len(rest, live);
            assert(node_view(nodes@[k as int]) == undead_effects_model(sub, live).0[0]);
            assert(undead_effects_model(sub, live).0[0] == undead_effect_model(
                es@[k as int],
                rest_live,
            ).0);
        }
        let g1 = conf_effect(&es[k], &nodes[k], g, Ghost(rest_live));
        proof {
            assert forall|i: int|
                k + 1 <= i < es@.len() implies node_view(#[trigger] nodes@[i])
                == undead_effects_model(rest, live).0[i - (k + 1)] by {
                assert(node_view(nodes@[i]) == undead_effects_model(sub, live).0[i - k]);
                assert(undead_effects_model(sub, live).0[i - k] == (seq![
                    undead_effect_model(es@[k as int], rest_live).0,
                ] + undead_effects_model(rest, live).0)[i - k]);
            }
        }
        conf_effects(es, k + 1, nodes, g1, Ghost(live))
    }
}

fn conf_effect(e: &Effect, n: &Node, g: Graph, Ghost(live): Ghost<Set<int>>) -> (r: Graph)
    requires
        g.wf(),
        node_wf(*n),
        node_view(*n) == undead_effect_model(*e, live).0,
    ensures
        r.wf(),
        r@ == conf_effect_model(*e, live, g@),
    decreases *e, 0int,
{
    match e {
        Effect::Assign { aloc, triv } => {
            match n {
                Node::Leaf { alocs } => {
                    let mut ns = alocs.clone();
                    ns.remove_index(aloc.index);
                    let ns = remove_triv(triv, ns);
                    let mut g = g;
                    proof {
                        assert(ns@ =~= live.remove(aloc.index as int).difference(
                            triv_alocs(*triv),
                        ));
                    }
                    g.insert_alocs(aloc.clone(), ns);
                    g
                },
                Node::Tree { .. } => g,
            }
        },
        Effect::AssignBinop { aloc, binop: _, triv } => {
            match n {
                Node::Leaf { alocs } => {
                    let mut ns = alocs.clone();
                    ns.remove_index(aloc.index);
                    let ns = remove_triv(triv, ns);
                    let mut g = g;
                    proof {
                        assert(ns@ =~= live.remove(aloc.index as int).difference(
                            triv_alocs(*triv),
                        ));
                    }
                    g.insert_alocs(aloc.clone(), ns);
                    g
                },
                Node::Tree { .. } => g,
            }
        },
        Effect::Begin(effects) => {
            match n {
                Node::Tree { nodes } => {
                    proof {
                        crate::ust::lemma_nodes_view_len(nodes@);
                        lemma_undead_effects_len(effects@, live);
                        assert(nodes@.len() == effects@.len());
                        assert forall|i: int| 0 <= i < effects@.len() implies node_view(
                            #[trigger] nodes@[i],
                        ) == undead_effects_model(
                            effects@.subrange(0, effects@.len() as int),
                            live,
                        ).0[i - 0] && node_wf(nodes@[i]) by {
                            crate::ust::lemma_nodes_view_index(nodes@, i);
                            assert(effects@.subrange(0, effects@.len() as int) =~= effects@);
                        }
                        assert(effects@.subrange(0, effects@.len() as int) =~= effects@);
                    }
                    conf_effects(effects, 0, nodes, g, Ghost(live))
                },
                Node::Leaf { .. } => g,
            }
        },
        Effect::IfElse { pred, effect1, effect2 } => {
            match n {
                Node::Tree { nodes } => {
                    let ghost l1 = undead_effect_model(**effect1, live).1;
                    let ghost l2 = undead_effect_model(**effect2, live).1;
                    let ghost n1 = undead_effect_model(**effect1, live).0;
                    let ghost n2 = undead_effect_model(**effect2, live).0;
                    let ghost pns = undead_pred_model(*pred, l1.union(l2)).0;
                    proof {
                        crate::ust::lemma_nodes_view_len(nodes@);
                        lemma_undead_pred_len(*pred, l1.union(l2));
                        assert(nodes_view(nodes@) == pns.push(n1).push(n2));
                        assert(nodes@.len() == pred_node_count(*pred) + 2);
                        assert forall|i: int| 0 <= i < nodes@.len() implies node_view(
                            #[trigger] nodes@[i],
                        ) == pns.push(n1).push(n2)[i] by {
                            crate::ust::lemma_nodes_view_index(nodes@, i);
                        }
                    }
                    if nodes.len() < 2 {
                        return g;
                    }
                    let g1 = conf_pred(pred, nodes, 0, g, Ghost(l1.union(l2)));
                    let g2 = conf_effect(effect1, &nodes[nodes.len() - 2], g1, Ghost(live));
                    conf_effect(effect2, &nodes[nodes.len() - 1], g2, Ghost(live))
                },
                Node::Leaf { .. } => g,
            }
        },
    }
}

/// Records the conflicts of a predicate against the window of `ns` that
/// starts at `lo` and holds the predicate's nodes.
fn conf_pred(p: &Pred, ns: &Vec<Node>, lo: usize, g: Graph, Ghost(live): Ghost<Set<int>>) -> (r:
    Graph)
    requires
        g.wf(),
        lo + pred_node_count(*p) <= ns@.len(),
        forall|i: int| lo <= i < lo + pred_node_count(*p) ==> node_wf(#[trigger] ns@[i]),
        forall|i: int|
            lo <= i < lo + pred_node_count(*p) ==> node_view(#[trigger] ns@[i])
                == undead_pred_model(*p, live).0[i - lo],
    ensures
        r.wf(),
        r@ == conf_pred_model(*p, live, g@),
    decreases *p, 0int,
{
    proof {
        lemma_undead_pred_len(*p, live);
    }
    match p {
        Pred::Compare { relop: _, aloc, triv } => {
            match &ns[lo] {
                Node::Leaf { alocs } => {
                    let mut nbrs = alocs.clone();
                    nbrs.remove_index(aloc.index);
                    let nbrs = remove_triv(triv, nbrs);
                    let mut g = g;
                    proof {
                        assert(node_view(ns@[lo as int]) == NodeS::Leaf(live));
                        assert(nbrs@ =~= live.remove(aloc.index as int).difference(
                            triv_alocs(*triv),
                        ));
                    }
                    g.insert_alocs(aloc.clone(), nbrs);
                    g
                },
                Node::Tree { .. } => g,
            }
        },
        Pred::True => g,
        Pred::False => g,
        Pred::Not(pred) => conf_pred(pred, ns, lo, g, Ghost(live)),
        Pred::Begin { effects, pred } => {
            match &ns[lo] {
                Node::Tree { nodes } => {
                    let ghost pl = undead_pred_model(**pred, live).1;
                    let ghost pns = undead_pred_model(**pred, live).0;
                    let ghost ens = undead_effects_model(effects@, pl).0;
                    proof {
                        crate::ust::lemma_nodes_view_len(nodes@);
                        lemma_undead_effects_len(effects@, pl);
                        lemma_undead_pred_len(**pred, live);
                        assert(node_view(ns@[lo as int]) == NodeS::Tree(ens + pns));
                        assert(nodes_view(nodes@) == ens + pns);
                        assert(nodes@.len() == effects@.len() + pred_node_count(**pred));
                        assert forall|i: int| 0 <= i < nodes@.len() implies node_view(
                            #[trigger] nodes@[i],
                        ) == (ens + pns)[i] by {
                            crate::ust::lemma_nodes_view_index(nodes@, i);
                        }
                        assert forall|i: int| 0 <= i < effects@.len() implies node_view(
                            #[trigger] nodes@[i],
                        ) == undead_effects_model(
                            effects@.subrange(0, effects@.len() as int),
                            pl,
                        ).0[i - 0] by {
                            assert(effects@.subrange(0, effects@.len() as int) =~= effects@);
                            assert((ens + pns)[i] == ens[i]);
                        }
                        assert(effects@.subrange(0, effects@.len() as int) =~= effects@);
                    }
                    let g1 = conf_effects(effects, 0, nodes, g, Ghost(pl));
                    proof {
                        assert forall|i: int|
                            effects@.len() <= i < effects@.len() + pred_node_count(**pred)
                            implies node_view(#[trigger] nodes@[i]) == undead_pred_model(
                            **pred,
                            live,
                        ).0[i - effects@.len()] && node_wf(nodes@[i]) by {
                            assert((ens + pns)[i] == pns[i - ens.len()]);
                        }
                    }
                    conf_pred(pred, nodes, effects.len(), g1, Ghost(live))
                },
                Node::Leaf { .. } => g,
            }
        },
        Pred::IfElse { pred1, pred2, pred3 } => {
            match &ns[lo] {
                Node::Tree { nodes } => {
                    let ghost l2 = undead_pred_model(**pred2, live).1;
                    let ghost l3 = undead_pred_model(**pred3, live).1;
                    let ghost ns1 = undead_pred_model(**pred1, l2.union(l3)).0;
                    let ghost ns2 = undead_pred_model(**pred2, live).0;
                    let ghost ns3 = undead_pred_model(**pred3, live).0;
                    let _children = nodes.len();
                    let c1 = pred_count(pred1);
                    let c2 = pred_count(pred2);
                    proof {
                        crate::ust::lemma_nodes_view_len(nodes@);
                        lemma_undead_pred_len(**pred1, l2.union(l3));
                        lemma_undead_pred_len(**pred2, live);
                        lemma_undead_pred_len(**pred3, live);
                        assert(node_view(ns@[lo as int]) == NodeS::Tree(ns1 + ns2 + ns3));
                        assert(nodes_view(nodes@) == ns1 + ns2 + ns3);
                        assert(nodes@.len() == ns1.len() + ns2.len() + ns3.len());
                        assert(pred_node_count(**pred1) + pred_node_count(**pred2)
                            <= nodes@.len());
                        assert forall|i: int| 0 <= i < nodes@.len() implies node_view(
                            #[trigger] nodes@[i],
                        ) == (ns1 + ns2 + ns3)[i] by {
                            crate::ust::lemma_nodes_view_index(nodes@, i);
                        }
                    }
                    let g1 = conf_pred(pred1, nodes, 0, g, Ghost(l2.union(l3)));
                    let g2 = conf_pred(pred2, nodes, c1, g1, Ghost(live));
                    conf_pred(pred3, nodes, c1 + c2, g2, Ghost(live))
                },
                Node::Leaf { .. } => g,
            }
        },
    }
}

/// How many undead-set-tree nodes a predicate owns.
fn pred_count(p: &Pred) -> (n: usize)
    ensures
        n == pred_node_count(*p),
    decreases *p,
{
    match p {
        Pred::Compare { .. } => 1,
        Pred::True => 0,
        Pred::False => 0,
        Pred::Not(pred) => pred_count(pred),
        Pred::Begin { .. } => 1,
        Pred::IfElse { .. } => 1,
    }
}

/// Removes the location an operand reads, if any, from the set.
fn remove_triv(t: &Triv, s: AlocSet) -> (r: AlocSet)
    requires
        s.wf(),
    ensures
        r.wf(),
        r@ =~= s@.difference(triv_alocs(*t)),
{
    match t {
        Triv::Int64(_) => {
            proof {
                assert(s@.difference(triv_alocs(*t)) =~= s@);
            }
            s
        },
        Triv::Loc(aloc) => {
            let mut s = s;
            s.remove_index(aloc.index);
            s
        },
    }
}

} // verus!
