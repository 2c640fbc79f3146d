//! The liveness ("undeadness") analysis: a backward walk over the program
//! that records, at every program point, the set of locations whose current
//! value may still be read later.
//!
//! The walk is specified by the `undead_*_model` functions: each takes the
//! set live *after* a form and returns the undead-set tree of the form
//! together with the set live *before* it.  A definition kills its target
//! before the locations its operand reads are added; on a conditional, the
//! two arms are analysed independently against the same incoming set and
//! the predicate is analysed against the union of what they need.  The
//! compound `AssignBinop` deliberately does not re-add a read of its own
//! target, mirroring the rest of the pipeline's expectations.

use vstd::prelude::*;

use crate::asm_pred_lang::{triv_alocs, program_info, program_tail, AsmLang, Effect, Info, Pred, Tail, Triv, P};
use crate::sets::AlocSet;
use crate::ust::{
    lemma_nodes_view_add, lemma_nodes_view_insert0, lemma_nodes_view_push, node_view, node_wf,
    nodes_view, nodes_wf, Node, NodeS,
};

verus! {

/// The undead-set tree of a tail and the set live on entry to it, given the
/// set live after it.
pub open spec fn undead_tail_model(t: Tail, live: Set<int>) -> (NodeS, Set<int>)
    decreases t, 0int,
{
    match t {
        Tail::Halt(triv) => (NodeS::Leaf(live), live.union(triv_alocs(triv))),
        Tail::Begin { effects, tail } => {
            let (tn, tl) = undead_tail_model(*tail, live);
            let (ens, el) = undead_effects_model(effects@, tl);
            (NodeS::Tree(ens.push(tn)), el)
        },
        Tail::IfElse { pred, tail1, tail2 } => {
            let (n1, l1) = undead_tail_model(*tail1, live);
            let (n2, l2) = undead_tail_model(*tail2, live);
            let (pns, lp) = undead_pred_model(pred, l1.union(l2));
            (NodeS::Tree(pns.push(n1).push(n2)), lp)
        },
    }
}

/// One node per effect, in source order, and the set live on entry to the
/// run.
pub open spec fn undead_effects_model(es: Seq<Effect>, live: Set<int>) -> (Seq<NodeS>, Set<int>)
    decreases es, es.len(),
{
    if es.len() == 0 {
        (Seq::empty(), live)
    } else {
        let (rest_nodes, rest_live) = undead_effects_model(es.subrange(1, es.len() as int), live);
        let (n0, l0) = undead_effect_model(es[0], rest_live);
        (seq![n0] + rest_nodes, l0)
    }
}

pub open spec fn undead_effect_model(e: Effect, live: Set<int>) -> (NodeS, Set<int>)
    decreases e, 0int,
{
    match e {
        Effect::Assign { aloc, triv } => (
            NodeS::Leaf(live),
            live.remove(aloc.index as int).union(triv_alocs(triv)),
        ),
        Effect::AssignBinop { aloc, binop, triv } => (
            NodeS::Leaf(live),
            live.remove(aloc.index as int).union(triv_alocs(triv)),
        ),
        Effect::Begin(effects) => {
            let (ns, l) = undead_effects_model(effects@, live);
            (NodeS::Tree(ns), l)
        },
        Effect::IfElse { pred, effect1, effect2 } => {
            let (n1, l1) = undead_effect_model(*effect1, live);
            let (n2, l2) = undead_effect_model(*effect2, live);
            let (pns, lp) = undead_pred_model(pred, l1.union(l2));
            (NodeS::Tree(pns.push(n1).push(n2)), lp)
        },
    }
}

/// A predicate contributes no node (`True`, `False`), its inner predicate's
/// nodes (`Not`), or exactly one node.
pub open spec fn undead_pred_model(p: Pred, live: Set<int>) -> (Seq<NodeS>, Set<int>)
    decreases p, 0int,
{
    match p {
        Pred::Compare { relop, aloc, triv } => (
            seq![NodeS::Leaf(live)],
            live.remove(aloc.index as int).union(triv_alocs(triv)),
        ),
        Pred::True => (Seq::empty(), live),
        Pred::False => (Seq::empty(), live),
        Pred::Not(pred) => undead_pred_model(*pred, live),
        Pred::Begin { effects, pred } => {
            let (pns, pl) = undead_pred_model(*pred, live);
            let (ens, el) = undead_effects_model(effects@, pl);
            (seq![NodeS::Tree(ens + pns)], el)
        },
        Pred::IfElse { pred1, pred2, pred3 } => {
            let (ns2, l2) = undead_pred_model(*pred2, live);
            let (ns3, l3) = undead_pred_model(*pred3, live);
            let (ns1, l1) = undead_pred_model(*pred1, l2.union(l3));
            (seq![NodeS::Tree(ns1 + ns2 + ns3)], l1)
        },
    }
}

impl AsmLang {
    /// Decorates the program with its undead-set tree; the side-table is
    /// otherwise kept as it was.
    pub fn undead_analysis(self) -> (r: AsmLang)
        ensures
            program_tail(r.0) == program_tail(self.0),
            program_info(r.0).locals == program_info(self.0).locals,
            program_info(r.0).assignment == program_info(self.0).assignment,
            program_info(r.0).conflicts == program_info(self.0).conflicts,
            program_info(r.0).undead_out matches Some(n) && node_wf(n) && node_view(n)
                == undead_tail_model(program_tail(self.0), Set::empty()).0,
    {
        let AsmLang(p) = self;
        match p {
            P::Module { info, tail } => {
                let empty = AlocSet::new();
                proof {
                    assert(empty@ =~= Set::<int>::empty());
                }
                let (node, _last) = undead_tail(&tail, empty);
                let info = Info {
                    undead_out: Some(node),
                    locals: info.locals,
                    assignment: info.assignment,
                    conflicts: info.conflicts,
                };
                AsmLang(P::Module { info, tail })
            },
        }
    }
}

fn undead_tail(t: &Tail, live: AlocSet) -> (r: (Node, AlocSet))
    requires
        live.wf(),
    ensures
        node_wf(r.0),
        r.1.wf(),
        node_view(r.0) == undead_tail_model(*t, live@).0,
        r.1@ == undead_tail_model(*t, live@).1,
    decreases *t, 0int,
{
    match t {
        Tail::Halt(triv) => {
            let leaf = Node::Leaf { alocs: live.clone() };
            let out = undead_triv(triv, live);
            (leaf, out)
        },
        Tail::Begin { effects, tail } => {
            let (tn, tl) = undead_tail(tail, live);
            let (ens, el) = undead_effects(effects, 0, tl);
            let mut nodes = ens;
            let ghost ens_view = nodes@;
            nodes.push(tn);
            proof {
                assert(effects@.subrange(0, effects@.len() as int) =~= effects@);
                lemma_nodes_view_push(ens_view, tn);
            }
            (Node::Tree { nodes }, el)
        },
        Tail::IfElse { pred, tail1, tail2 } => {
            let (n1, l1) = undead_tail(tail1, live.clone());
            let (n2, l2) = undead_tail(tail2, live);
            let mut lu = l1;
            lu.union_with(&l2);
            let (pns, lp) = undead_pred(pred, lu);
            let mut nodes = pns;
            let ghost pns_view = nodes@;
            nodes.push(n1);
            let ghost with1_view = nodes@;
            nodes.push(n2);
            proof {
                lemma_nodes_view_push(pns_view, n1);
                lemma_nodes_view_push(with1_view, n2);
            }
            (Node::Tree { nodes }, lp)
        },
    }
}

/// Analyses `es[k..]` backwards: the run's nodes in source order and the
/// set live on entry to `es[k]`.
fn undead_effects(es: &Vec<Effect>, k: usize, live: AlocSet) -> (r: (Vec<Node>, AlocSet))
    requires
        live.wf(),
        k <= es@.len(),
    ensures
        nodes_wf(r.0@),
        r.1.wf(),
        nodes_view(r.0@) == undead_effects_model(es@.subrange(k as int, es@.len() as int), live@).0,
        r.1@ == undead_effects_model(es@.subrange(k as int, es@.len() as int), live@).1,
    decreases es@, es@.len() - k,
{
    if k == es.len() {
        proof {
            assert(es@.subrange(k as int, es@.len() as int) =~= Seq::<Effect>::empty());
            assert(nodes_view(Seq::<Node>::empty()) =~= Seq::<NodeS>::empty());
        }
        (Vec::new(), live)
    } else {
        let (rest_nodes, rest_live) = undead_effects(es, k + 1, live);
        let (n0, l0) = undead_effect(&es[k], rest_live);
        let mut nodes = rest_nodes;
        let ghost rest_view = nodes@;
        nodes.insert(0, n0);
        proof {
            let sub = es@.subrange(k as int, es@.len() as int);
            assert(sub[0] == es@[k as int]);
            assert(sub.subrange(1, sub.len() as int) =~= es@.subrange(k + 1, es@.len() as int));
            lemma_nodes_view_insert0(rest_view, n0);
            assert(nodes_view(nodes@) =~= seq![node_view(n0)] + nodes_view(rest_view));
            assert(nodes_view(nodes@) == undead_effects_model(sub, live@).0);
            assert forall|i: int| 0 <= i < nodes@.len() implies node_wf(#[trigger] nodes@[i]) by {
                if i > 0 {
                    assert(nodes@[i] == rest_view[i - 1]);
                }
            }
        }
        (nodes, l0)
    }
}

fn undead_effect(e: &Effect, live: AlocSet) -> (r: (Node, AlocSet))
    requires
        live.wf(),
    ensures
        node_wf(r.0),
        r.1.wf(),
        node_view(r.0) == undead_effect_model(*e, live@).0,
        r.1@ == undead_effect_model(*e, live@).1,
    decreases *e, 0int,
{
    match e {
        Effect::Assign { aloc, triv } => {
            let leaf = Node::Leaf { alocs: live.clone() };
            let mut l = live;
            l.remove_index(aloc.index);
            let out = undead_triv(triv, l);
            (leaf, out)
        },
        Effect::AssignBinop { aloc, binop: _, triv } => {
            let leaf = Node::Leaf { alocs: live.clone() };
            let mut l = live;
            l.remove_index(aloc.index);
            let out = undead_triv(triv, l);
            (leaf, out)
        },
        Effect::Begin(effects) => {
            let (ns, l) = undead_effects(effects, 0, live);
            proof {
                assert(effects@.subrange(0, effects@.len() as int) =~= effects@);
            }
            (Node::Tree { nodes: ns }, l)
        },
        Effect::IfElse { pred, effect1, effect2 } => {
            let (n1, l1) = undead_effect(effect1, live.clone());
            let (n2, l2) = undead_effect(effect2, live);
            let mut lu = l1;
            lu.union_with(&l2);
            let (pns, lp) = undead_pred(pred, lu);
            let mut nodes = pns;
            let ghost pns_view = nodes@;
            nodes.push(n1);
            let ghost with1_view = nodes@;
            nodes.push(n2);
            proof {
                lemma_nodes_view_push(pns_view, n1);
                lemma_nodes_view_push(with1_view, n2);
            }
            (Node::Tree { nodes }, lp)
        },
    }
}

fn undead_pred(p: &Pred, live: AlocSet) -> (r: (Vec<Node>, AlocSet))
    requires
        live.wf(),
    ensures
        nodes_wf(r.0@),
        r.1.wf(),
        nodes_view(r.0@) == undead_pred_model(*p, live@).0,
        r.1@ == undead_pred_model(*p, live@).1,
    decreases *p, 0int,
{
    match p {
        Pred::Compare { relop: _, aloc, triv } => {
            let leaf = Node::Leaf { alocs: live.clone() };
            let mut l = live;
            l.remove_index(aloc.index);
            let out = undead_triv(triv, l);
            let nodes = vec![leaf];
            proof {
                assert(nodes@.drop_last() =~= Seq::<Node>::empty());
                assert(nodes_view(Seq::<Node>::empty()) =~= Seq::<NodeS>::empty());
                assert(nodes_view(nodes@) =~= seq![node_view(nodes@[0])]);
                assert forall|i: int| 0 <= i < nodes@.len() implies node_wf(
                    #[trigger] nodes@[i],
                ) by {
                    assert(nodes@[i] == nodes@[0]);
                }
            }
            (nodes, out)
        },
        Pred::True => {
            proof {
                assert(nodes_view(Seq::<Node>::empty()) =~= Seq::<NodeS>::empty());
            }
            (Vec::new(), live)
        },
        Pred::False => {
            proof {
                assert(nodes_view(Seq::<Node>::empty()) =~= Seq::<NodeS>::empty());
            }
            (Vec::new(), live)
        },
        Pred::Not(pred) => undead_pred(pred, live),
        Pred::Begin { effects, pred } => {
            let (mut pns, pl) = undead_pred(pred, live);
            let (ens, el) = undead_effects(effects, 0, pl);
            let mut nodes = ens;
            let ghost ens_view = nodes@;
            let ghost pns_view = pns@;
            nodes.append(&mut pns);
            proof {
                assert(effects@.subrange(0, effects@.len() as int) =~= effects@);
                lemma_nodes_view_add(ens_view, pns_view);
                assert forall|i: int| 0 <= i < nodes@.len() implies node_wf(
                    #[trigger] nodes@[i],
                ) by {
                    if i < ens_view.len() {
                        assert(nodes@[i] == ens_view[i]);
                    } else {
                        assert(nodes@[i] == pns_view[i - ens_view.len()]);
                    }
                }
            }
            let node = Node::Tree { nodes };
            let r = vec![node];
            proof {
                assert(r@.drop_last() =~= Seq::<Node>::empty());
                assert(nodes_view(Seq::<Node>::empty()) =~= Seq::<NodeS>::empty());
                assert(nodes_view(r@) =~= seq![node_view(r@[0])]);
                assert forall|i: int| 0 <= i < r@.len() implies node_wf(#[trigger] r@[i]) by {
                    assert(r@[i] == r@[0]);
                }
            }
            (r, el)
        },
        Pred::IfElse { pred1, pred2, pred3 } => {
            let (ns2, l2) = undead_pred(pred2, live.clone());
            let (ns3, l3) = undead_pred(pred3, live);
            let mut lu = l2;
            lu.union_with(&l3);
            let (ns1, lp) = undead_pred(pred1, lu);
            let mut nodes = ns1;
            let ghost ns1_view = nodes@;
            let ghost ns2_view = ns2@;
            let ghost ns3_view = ns3@;
            let mut ns2 = ns2;
            let mut ns3 = ns3;
            nodes.append(&mut ns2);
            nodes.append(&mut ns3);
            proof {
                lemma_nodes_view_add(ns1_view, ns2_view);
                lemma_nodes_view_add(ns1_view + ns2_view, ns3_view);
                assert(nodes@ =~= ns1_view + ns2_view + ns3_view);
                assert forall|i: int| 0 <= i < nodes@.len() implies node_wf(
                    #[trigger] nodes@[i],
                ) by {
                    if i < ns1_view.len() {
                        assert(nodes@[i] == ns1_view[i]);
                    } else if i < ns1_view.len() + ns2_view.len() {
                        assert(nodes@[i] == ns2_view[i - ns1_view.len()]);
                    } else {
                        assert(nodes@[i] == ns3_view[i - ns1_view.len() - ns2_view.len()]);
                    }
                }
            }
            let node = Node::Tree { nodes };
            let r = vec![node];
            proof {
                assert(r@.drop_last() =~= Seq::<Node>::empty());
                assert(nodes_view(Seq::<Node>::empty()) =~= Seq::<NodeS>::empty());
                assert(nodes_view(r@) =~= seq![node_view(r@[0])]);
                assert forall|i: int| 0 <= i < r@.len() implies node_wf(#[trigger] r@[i]) by {
                    assert(r@[i] == r@[0]);
                }
            }
            (r, lp)
        },
    }
}

/// Adds the location an operand reads, if any, to the live set.
fn undead_triv(t: &Triv, live: AlocSet) -> (r: AlocSet)
    requires
        live.wf(),
    ensures
        r.wf(),
        r@ == live@.union(triv_alocs(*t)),
{
    match t {
        Triv::Int64(_) => {
            proof {
                assert(live@.union(triv_alocs(*t)) =~= live@);
            }
            live
        },
        Triv::Loc(aloc) => {
            let mut l = live;
            l.insert(aloc.clone());
            proof {
                assert(l@ =~= live@.union(triv_alocs(*t)));
            }
            l
        },
    }
}

} // verus!
