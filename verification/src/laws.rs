//! The structural law of the liveness analysis: the undead-set tree it
//! produces has exactly the nesting shape of the program it annotates —
//! one leaf per effect, per comparison and per tail instruction, and one
//! subtree per nested scope or conditional arm, in source order.

use vstd::prelude::*;

use crate::asm_pred_lang::{Effect, Pred, Tail};
use crate::conflicts::{lemma_undead_effects_len, lemma_undead_pred_len, pred_node_count};
use crate::undead::{
    undead_effect_model, undead_effects_model, undead_pred_model, undead_tail_model,
};
use crate::ust::NodeS;

verus! {

/// The node has the shape of the tail: a leaf for a halt, and for a
/// nested form a subtree with one child per program point, the children in
/// source order.
pub open spec fn node_matches_tail(n: NodeS, t: Tail) -> bool
    decreases t, 0int,
{
    match t {
        Tail::Halt(_) => n is Leaf,
        Tail::Begin { effects, tail } => n matches NodeS::Tree(cs) && cs.len() == effects@.len()
            + 1 && (forall|i: int|
            0 <= i < effects@.len() ==> node_matches_effect(#[trigger] cs[i], effects@[i]))
            && node_matches_tail(cs[cs.len() - 1], *tail),
        Tail::IfElse { pred, tail1, tail2 } => n matches NodeS::Tree(cs) && cs.len()
            == pred_node_count(pred) + 2 && nodes_match_pred(
            cs.subrange(0, pred_node_count(pred)),
            pred,
        ) && node_matches_tail(cs[cs.len() - 2], *tail1) && node_matches_tail(
            cs[cs.len() - 1],
            *tail2,
        ),
    }
}

pub open spec fn node_matches_effect(n: NodeS, e: Effect) -> bool
    decreases e, 0int,
{
    match e {
        Effect::Assign { .. } => n is Leaf,
        Effect::AssignBinop { .. } => n is Leaf,
        Effect::Begin(effects) => n matches NodeS::Tree(cs) && cs.len() == effects@.len() && (
        forall|i: int|
            0 <= i < effects@.len() ==> node_matches_effect(#[trigger] cs[i], effects@[i])),
        Effect::IfElse { pred, effect1, effect2 } => n matches NodeS::Tree(cs) && cs.len()
            == pred_node_count(pred) + 2 && nodes_match_pred(
            cs.subrange(0, pred_node_count(pred)),
            pred,
        ) && node_matches_effect(cs[cs.len() - 2], *effect1) && node_matches_effect(
            cs[cs.len() - 1],
            *effect2,
        ),
    }
}

/// The run of nodes a predicate owns has its shape: one leaf for a
/// comparison, nothing for a constant, the inner predicate's run under a
/// negation, and one subtree for a nested scope or conditional.
pub open spec fn nodes_match_pred(ns: Seq<NodeS>, p: Pred) -> bool
    decreases p, 0int,
{
    match p {
        Pred::Compare { .. } => ns.len() == 1 && ns[0] is Leaf,
        Pred::True => ns.len() == 0,
        Pred::False => ns.len() == 0,
        Pred::Not(pred) => nodes_match_pred(ns, *pred),
        Pred::Begin { effects, pred } => ns.len() == 1 && (ns[0] matches NodeS::Tree(cs)
            && cs.len() == effects@.len() + pred_node_count(*pred) && (forall|i: int|
            0 <= i < effects@.len() ==> node_matches_effect(#[trigger] cs[i], effects@[i]))
            && nodes_match_pred(cs.subrange(effects@.len() as int, cs.len() as int), *pred)),
        Pred::IfElse { pred1, pred2, pred3 } => {
            let c1 = pred_node_count(*pred1);
            let c2 = pred_node_count(*pred2);
            let c3 = pred_node_count(*pred3);
            ns.len() == 1 && (ns[0] matches NodeS::Tree(cs) && cs.len() == c1 + c2 + c3
                && nodes_match_pred(cs.subrange(0, c1), *pred1) && nodes_match_pred(
                cs.subrange(c1, c1 + c2),
                *pred2,
            ) && nodes_match_pred(cs.subrange(c1 + c2, cs.len() as int), *pred3))
        },
    }
}

/// Structural isomorphism: whatever set is live after it, the undead-set
/// tree the analysis gives a tail has exactly the tail's nesting shape.
pub proof fn lemma_undead_tree_isomorphic(t: Tail, live: Set<int>)
    ensures
        node_matches_tail(undead_tail_model(t, live).0, t),
    decreases t, 0int,
{
    match t {
        Tail::Halt(_) => {},
        Tail::Begin { effects, tail } => {
            let (tn, tl) = undead_tail_model(*tail, live);
            lemma_undead_tree_isomorphic(*tail, live);
            lemma_undead_effects_isomorphic(effects@, tl);
            let ens = undead_effects_model(effects@, tl).0;
            assert(ens.push(tn)[ens.len() as int] == tn);
            assert(forall|i: int| 0 <= i < ens.len() ==> ens.push(tn)[i] == ens[i]);
        },
        Tail::IfElse { pred, tail1, tail2 } => {
            let (n1, l1) = undead_tail_model(*tail1, live);
            let (n2, l2) = undead_tail_model(*tail2, live);
            let pns = undead_pred_model(pred, l1.union(l2)).0;
            lemma_undead_tree_isomorphic(*tail1, live);
            lemma_undead_tree_isomorphic(*tail2, live);
            lemma_undead_pred_isomorphic(pred, l1.union(l2));
            lemma_undead_pred_len(pred, l1.union(l2));
            let cs = pns.push(n1).push(n2);
            assert(cs.subrange(0, pns.len() as int) =~= pns);
            assert(cs[cs.len() - 2] == n1);
            assert(cs[cs.len() - 1] == n2);
        },
    }
}

/// One node per effect, each with the effect's shape, in source order.
pub proof fn lemma_undead_effects_isomorphic(es: Seq<Effect>, live: Set<int>)
    ensures
        undead_effects_model(es, live).0.len() == es.len(),
        forall|i: int|
            0 <= i < es.len() ==> node_matches_effect(
                #[trigger] undead_effects_model(es, live).0[i],
                es[i],
            ),
    decreases es, es.len(),
{
    lemma_undead_effects_len(es, live);
    if es.len() > 0 {
        let rest = es.subrange(1, es.len() as int);
        let (rest_nodes, rest_live) = undead_effects_model(rest, live);
        lemma_undead_effects_isomorphic(rest, live);
        lemma_undead_effect_isomorphic(es[0], rest_live);
        assert forall|i: int| 0 <= i < es.len() implies node_matches_effect(
            #[trigger] undead_effects_model(es, live).0[i],
            es[i],
        ) by {
            if i > 0 {
                assert(undead_effects_model(es, live).0[i] == rest_nodes[i - 1]);
                assert(rest[i - 1] == es[i]);
            }
        }
    }
}

pub proof fn lemma_undead_effect_isomorphic(e: Effect, live: Set<int>)
    ensures
        node_matches_effect(undead_effect_model(e, live).0, e),
    decreases e, 0int,
{
    match e {
        Effect::Assign { .. } => {},
        Effect::AssignBinop { .. } => {},
        Effect::Begin(effects) => {
            lemma_undead_effects_isomorphic(effects@, live);
        },
        Effect::IfElse { pred, effect1, effect2 } => {
            let (n1, l1) = undead_effect_model(*effect1, live);
            let (n2, l2) = undead_effect_model(*effect2, live);
            let pns = undead_pred_model(pred, l1.union(l2)).0;
            lemma_undead_effect_isomorphic(*effect1, live);
            lemma_undead_effect_isomorphic(*effect2, live);
            lemma_undead_pred_isomorphic(pred, l1.union(l2));
            lemma_undead_pred_len(pred, l1.union(l2));
            let cs = pns.push(n1).push(n2);
            assert(cs.subrange(0, pns.len() as int) =~= pns);
            assert(cs[cs.len() - 2] == n1);
            assert(cs[cs.len() - 1] == n2);
        },
    }
}

pub proof fn lemma_undead_pred_isomorphic(p: Pred, live: Set<int>)
    ensures
        nodes_match_pred(undead_pred_model(p, live).0, p),
    decreases p, 0int,
{
    lemma_undead_pred_len(p, live);
    match p {
        Pred::Compare { .. } => {},
        Pred::True => {},
        Pred::False => {},
        Pred::Not(pred) => {
            lemma_undead_pred_isomorphic(*pred, live);
        },
        Pred::Begin { effects, pred } => {
            let (pns, pl) = undead_pred_model(*pred, live);
            let ens = undead_effects_model(effects@, pl).0;
            lemma_undead_pred_isomorphic(*pred, live);
            lemma_undead_effects_isomorphic(effects@, pl);
            lemma_undead_pred_len(*pred, live);
            let cs = ens + pns;
            assert(cs.subrange(ens.len() as int, cs.len() as int) =~= pns);
            assert(forall|i: int| 0 <= i < ens.len() ==> cs[i] == ens[i]);
        },
        Pred::IfElse { pred1, pred2, pred3 } => {
            let (ns2, l2) = undead_pred_model(*pred2, live);
            let (ns3, l3) = undead_pred_model(*pred3, live);
            let ns1 = undead_pred_model(*pred1, l2.union(l3)).0;
            lemma_undead_pred_isomorphic(*pred1, l2.union(l3));
            lemma_undead_pred_isomorphic(*pred2, live);
            lemma_undead_pred_isomorphic(*pred3, live);
            lemma_undead_pred_len(*pred1, l2.union(l3));
            lemma_undead_pred_len(*pred2, live);
            lemma_undead_pred_len(*pred3, live);
            let cs = ns1 + ns2 + ns3;
            assert(cs.subrange(0, ns1.len() as int) =~= ns1);
            assert(cs.subrange(ns1.len() as int, (ns1.len() + ns2.len()) as int) =~= ns2);
            assert(cs.subrange((ns1.len() + ns2.len()) as int, cs.len() as int) =~= ns3);
        },
    }
}

} // verus!
