//! The role of each node in the graph, from the edges that touch it.
use vstd::prelude::*;
use crate::graph::{EdgeModel, Graph};
use crate::text::same_chars;

verus! {

/// The topological role of a node.
#[derive(Clone, Copy, Debug, PartialEq, Eq, Structural)]
pub enum Kind {
    /// No edges.
    Isolate,
    /// Outgoing edges only.
    Source,
    /// Incoming edges only.
    Sink,
    /// Both incoming and outgoing edges.
    NonTerminal,
}

pub open spec fn has_out(es: Seq<EdgeModel>, n: Seq<char>) -> bool {
    exists|i: int| 0 <= i < es.len() && (#[trigger] es[i]).from == n
}

pub open spec fn has_in(es: Seq<EdgeModel>, n: Seq<char>) -> bool {
    exists|i: int| 0 <= i < es.len() && (#[trigger] es[i]).to == n
}

pub open spec fn kind_of(es: Seq<EdgeModel>, n: Seq<char>) -> Kind {
    if has_in(es, n) && has_out(es, n) {
        Kind::NonTerminal
    } else if has_out(es, n) {
        Kind::Source
    } else if has_in(es, n) {
        Kind::Sink
    } else {
        Kind::Isolate
    }
}

/// The indices of the edges that leave `n`, in order.
pub open spec fn out_indices(es: Seq<EdgeModel>, n: Seq<char>) -> Seq<int>
    decreases es.len(),
{
    if es.len() == 0 {
        Seq::empty()
    } else {
        out_indices(es.drop_last(), n) + if es.last().from == n {
            seq![es.len() - 1]
        } else {
            Seq::empty()
        }
    }
}

/// The indices of the edges that enter `n`, in order.
pub open spec fn in_indices(es: Seq<EdgeModel>, n: Seq<char>) -> Seq<int>
    decreases es.len(),
{
    if es.len() == 0 {
        Seq::empty()
    } else {
        in_indices(es.drop_last(), n) + if es.last().to == n {
            seq![es.len() - 1]
        } else {
            Seq::empty()
        }
    }
}

/// The outgoing indices are exactly the edges that leave `n`, each once, in
/// increasing order.
pub proof fn lemma_out_indices(es: Seq<EdgeModel>, n: Seq<char>)
    ensures
        forall|k: int|
            0 <= k < out_indices(es, n).len() ==> 0 <= #[trigger] out_indices(es, n)[k] < es.len()
                && es[out_indices(es, n)[k]].from == n,
        forall|k1: int, k2: int|
            0 <= k1 < k2 < out_indices(es, n).len() ==> out_indices(es, n)[k1] < out_indices(
                es,
                n,
            )[k2],
        forall|i: int|
            0 <= i < es.len() && (#[trigger] es[i]).from == n ==> out_indices(es, n).contains(i),
        out_indices(es, n).len() > 0 <==> has_out(es, n),
    decreases es.len(),
{
    if es.len() > 0 {
        let p = es.drop_last();
        lemma_out_indices(p, n);
        assert forall|i: int| 0 <= i < es.len() && (#[trigger] es[i]).from == n implies out_indices(
            es,
            n,
        ).contains(i) by {
            if i < es.len() - 1 {
                assert(p[i] == es[i]);
                let k = choose|k: int| 0 <= k < out_indices(p, n).len() && out_indices(p, n)[k] == i;
                assert(out_indices(es, n)[k] == i);
            } else {
                assert(out_indices(es, n)[out_indices(es, n).len() - 1] == i);
            }
        }
        if has_out(es, n) {
            let i = choose|i: int| 0 <= i < es.len() && (#[trigger] es[i]).from == n;
            assert(out_indices(es, n).contains(i));
        }
        if out_indices(es, n).len() > 0 {
            let j = out_indices(es, n)[0];
            assert(es[j].from == n);
        }
    }
}

/// The incoming indices are exactly the edges that enter `n`, each once, in
/// increasing order.
pub proof fn lemma_in_indices(es: Seq<EdgeModel>, n: Seq<char>)
    ensures
        forall|k: int|
            0 <= k < in_indices(es, n).len() ==> 0 <= #[trigger] in_indices(es, n)[k] < es.len()
                && es[in_indices(es, n)[k]].to == n,
        forall|k1: int, k2: int|
            0 <= k1 < k2 < in_indices(es, n).len() ==> in_indices(es, n)[k1] < in_indices(
                es,
                n,
            )[k2],
        forall|i: int|
            0 <= i < es.len() && (#[trigger] es[i]).to == n ==> in_indices(es, n).contains(i),
        in_indices(es, n).len() > 0 <==> has_in(es, n),
    decreases es.len(),
{
    if es.len() > 0 {
        let p = es.drop_last();
        lemma_in_indices(p, n);
        assert forall|i: int| 0 <= i < es.len() && (#[trigger] es[i]).to == n implies in_indices(
            es,
            n,
        ).contains(i) by {
            if i < es.len() - 1 {
                assert(p[i] == es[i]);
                let k = choose|k: int| 0 <= k < in_indices(p, n).len() && in_indices(p, n)[k] == i;
                assert(in_indices(es, n)[k] == i);
            } else {
                assert(in_indices(es, n)[in_indices(es, n).len() - 1] == i);
            }
        }
        if has_in(es, n) {
            let i = choose|i: int| 0 <= i < es.len() && (#[trigger] es[i]).to == n;
            assert(in_indices(es, n).contains(i));
        }
        if in_indices(es, n).len() > 0 {
            let j = in_indices(es, n)[0];
            assert(es[j].to == n);
        }
    }
}

pub open spec fn as_ints(v: Seq<usize>) -> Seq<int> {
    v.map_values(|i: usize| i as int)
}

impl Graph {
    /// The edges that leave `from`, as indices into `edges`, in order.
    pub fn outgoing(&self, from: &Vec<char>) -> (r: Vec<usize>)
        ensures
            as_ints(r@) == out_indices(self.edges_m(), from@),
    {
        let ghost es = self.edges_m();
        let mut r: Vec<usize> = Vec::new();
        let mut i: usize = 0;
        while i < self.edges.len()
            invariant
                i <= self.edges@.len(),
                es == self.edges_m(),
                as_ints(r@) == out_indices(es.subrange(0, i as int), from@),
            decreases self.edges@.len() - i,
        {
            let ghost before = as_ints(r@);
            if same_chars(&self.edges[i].from, from) {
                r.push(i);
            }
            proof {
                assert(es.subrange(0, i + 1).drop_last() =~= es.subrange(0, i as int));
                assert(as_ints(r@) =~= out_indices(es.subrange(0, i + 1), from@));
            }
            i = i + 1;
        }
        proof {
            assert(es.subrange(0, self.edges@.len() as int) =~= es);
        }
        r
    }

    /// The edges that enter `to`, as indices into `edges`, in order.
    pub fn incoming(&self, to: &Vec<char>) -> (r: Vec<usize>)
        ensures
            as_ints(r@) == in_indices(self.edges_m(), to@),
    {
        let ghost es = self.edges_m();
        let mut r: Vec<usize> = Vec::new();
        let mut i: usize = 0;
        while i < self.edges.len()
            invariant
                i <= self.edges@.len(),
                es == self.edges_m(),
                as_ints(r@) == in_indices(es.subrange(0, i as int), to@),
            decreases self.edges@.len() - i,
        {
            if same_chars(&self.edges[i].to, to) {
                r.push(i);
            }
            proof {
                assert(es.subrange(0, i + 1).drop_last() =~= es.subrange(0, i as int));
                assert(as_ints(r@) =~= in_indices(es.subrange(0, i + 1), to@));
            }
            i = i + 1;
        }
        proof {
            assert(es.subrange(0, self.edges@.len() as int) =~= es);
        }
        r
    }

    /// The role of the node called `n`.
    pub fn kind(&self, n: &Vec<char>) -> (r: Kind)
        ensures
            r == kind_of(self.edges_m(), n@),
    {
        let out = self.outgoing(n);
        let inc = self.incoming(n);
        proof {
            lemma_out_indices(self.edges_m(), n@);
            lemma_in_indices(self.edges_m(), n@);
        }
        if inc.len() > 0 && out.len() > 0 {
            Kind::NonTerminal
        } else if out.len() > 0 {
            Kind::Source
        } else if inc.len() > 0 {
            Kind::Sink
        } else {
            Kind::Isolate
        }
    }
}

} // verus!
