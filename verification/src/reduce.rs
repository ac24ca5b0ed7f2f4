use vstd::prelude::*;
use crate::bigint::{Bigint, bi_mul, bi_add, bi_divrem};
use crate::group::UnknownOrderGroup;
use crate::exppok::{product_of, keys_ok, key_views, lemma_product_nonneg};

verus! {

/// A node of a reduction expression: a plain integer, a product of an
/// earlier node with a small factor, or a sum of two earlier nodes.
pub enum ReduceNode {
    Leaf(Bigint),
    Product { child: usize, small: Bigint },
    Sum { left: usize, right: usize },
}

/// An expression over integers, laid out as an arena whose nodes only
/// reference earlier nodes. Reducing node `i` modulo a prime `p` against a
/// group base yields `base^(value/p)` and `value % p` without ever forming
/// the full value's exponentiation: many small multiplications fold into
/// few exponentiations.
pub struct ReduceTree {
    pub nodes: Vec<ReduceNode>,
}

/// The integer value that a node denotes.
pub open spec fn node_val(nodes: Seq<ReduceNode>, i: int) -> int
    decreases i,
{
    if 0 <= i < nodes.len() {
        match nodes[i] {
            ReduceNode::Leaf(b) => b@,
            ReduceNode::Product { child, small } => {
                if (child as int) < i {
                    node_val(nodes, child as int) * small@
                } else {
                    0
                }
            },
            ReduceNode::Sum { left, right } => {
                if (left as int) < i && (right as int) < i {
                    node_val(nodes, left as int) + node_val(nodes, right as int)
                } else {
                    0
                }
            },
        }
    } else {
        0
    }
}

impl ReduceTree {
    /// Well-formed: every reference goes to an earlier node, and every
    /// stored integer is well-formed and non-negative.
    pub open spec fn wf(&self) -> bool {
        forall|i: int| 0 <= i < self.nodes@.len() ==> match #[trigger] self.nodes@[i] {
            ReduceNode::Leaf(b) => b.wf() && b@ >= 0,
            ReduceNode::Product { child, small } =>
                (child as int) < i && small.wf() && small@ >= 0,
            ReduceNode::Sum { left, right } => (left as int) < i && (right as int) < i,
        }
    }

    /// Every node value is non-negative in a well-formed tree.
    pub proof fn lemma_val_nonneg(&self, i: int)
        requires
            self.wf(),
        ensures
            node_val(self.nodes@, i) >= 0,
        decreases i,
    {
        if 0 <= i < self.nodes@.len() {
            match self.nodes@[i] {
                ReduceNode::Leaf(b) => {},
                ReduceNode::Product { child, small } => {
                    self.lemma_val_nonneg(child as int);
                    vstd::arithmetic::mul::lemma_mul_nonnegative(
                        node_val(self.nodes@, child as int), small@);
                },
                ReduceNode::Sum { left, right } => {
                    self.lemma_val_nonneg(left as int);
                    self.lemma_val_nonneg(right as int);
                },
            }
        }
    }

    /// A chain of products over a list of integers: the value of the last
    /// node is the product of the whole list.
    pub fn product_chain(elems: &Vec<Bigint>) -> (r: ReduceTree)
        requires
            keys_ok(elems@),
            elems@.len() > 0,
        ensures
            r.wf(),
            r.nodes@.len() == elems@.len(),
            node_val(r.nodes@, r.nodes@.len() - 1) == product_of(key_views(elems@)),
    {
        let mut nodes: Vec<ReduceNode> = Vec::new();
        let e0 = elems[0].clone();
        nodes.push(ReduceNode::Leaf(e0));
        proof {
            assert(key_views(elems@).take(1).drop_last() =~= Seq::<int>::empty());
            assert(key_views(elems@).len() == elems@.len());
            assert(key_views(elems@)[0] == elems@[0]@);
            assert(key_views(elems@).take(1).last() == key_views(elems@)[0]);
            assert(nodes@[0] == ReduceNode::Leaf(e0));
            assert(product_of(Seq::<int>::empty()) == 1);
            assert(key_views(elems@).take(1).len() == 1);
            assert(product_of(key_views(elems@).take(1))
                == product_of(key_views(elems@).take(1).drop_last())
                    * key_views(elems@).take(1).last());
            assert(product_of(key_views(elems@).take(1)) == 1 * elems@[0]@);
            assert(1 * elems@[0]@ == elems@[0]@) by {
                vstd::arithmetic::mul::lemma_mul_basics(elems@[0]@);
            }
        }
        let mut i: usize = 1;
        while i < elems.len()
            invariant
                1 <= i <= elems.len(),
                keys_ok(elems@),
                nodes@.len() == i,
                (ReduceTree { nodes }).wf(),
                node_val(nodes@, i - 1) == product_of(key_views(elems@).take(i as int)),
            decreases elems.len() - i,
        {
            let ghost old_nodes = nodes@;
            let sm = elems[i].clone();
            nodes.push(ReduceNode::Product { child: i - 1, small: sm });
            proof {
                assert(old_nodes.is_prefix_of(nodes@));
                lemma_node_val_extend(old_nodes, nodes@);
                assert(node_val(nodes@, i - 1) == node_val(old_nodes, i - 1));
                assert(nodes@[i as int] == (ReduceNode::Product { child: (i - 1) as usize, small: sm }));
                assert(node_val(nodes@, i as int) == node_val(nodes@, i - 1) * sm@);
                assert(key_views(elems@).take(i + 1).drop_last()
                    =~= key_views(elems@).take(i as int));
                assert(key_views(elems@).take(i + 1).last() == elems@[i as int]@);
            }
            i = i + 1;
        }
        proof {
            assert(key_views(elems@).take(elems@.len() as int) =~= key_views(elems@));
        }
        ReduceTree { nodes }
    }

    /// Reduces node `i` modulo `p` against `base`: returns the base raised
    /// to the quotient of the node's value, and the remainder — exactly
    /// what the naive strategy gets by computing the full value first and
    /// dividing once.
    pub fn reduce<G: UnknownOrderGroup>(&self, i: usize, base: &G, p: &Bigint)
        -> (res: (G, Bigint))
        requires
            self.wf(),
            i < self.nodes@.len(),
            base.wf(),
            p.wf(),
            p@ > 0,
        ensures
            res.0.wf(),
            res.0.gv() == G::sexp(base.gv(), node_val(self.nodes@, i as int) / p@),
            res.1.wf(),
            res.1@ == node_val(self.nodes@, i as int) % p@,
            res.1@ >= 0,
        decreases i,
    {
        proof {
            self.lemma_val_nonneg(i as int);
        }
        match &self.nodes[i] {
            ReduceNode::Leaf(b) => {
                let (q, r) = bi_divrem(b, p);
                proof {
                    vstd::arithmetic::div_mod::lemma_fundamental_div_mod_converse(
                        b@, p@, q@, r@);
                    vstd::arithmetic::div_mod::lemma_div_pos_is_pos(b@, p@);
                }
                (base.exp(&q), r)
            },
            ReduceNode::Product { child, small } => {
                let (q0_elem, r0) = self.reduce(*child, base, p);
                let ghost n0 = node_val(self.nodes@, *child as int);
                let ghost q0 = n0 / p@;
                proof {
                    self.lemma_val_nonneg(*child as int);
                    vstd::arithmetic::div_mod::lemma_div_pos_is_pos(n0, p@);
                    vstd::arithmetic::div_mod::lemma_fundamental_div_mod(n0, p@);
                }
                // the child's quotient element raised to the whole factor
                let q0_s = q0_elem.exp(small);
                // split the factor
                let (q1, r1) = bi_divrem(small, p);
                proof {
                    vstd::arithmetic::div_mod::lemma_fundamental_div_mod_converse(
                        small@, p@, q1@, r1@);
                    vstd::arithmetic::div_mod::lemma_div_pos_is_pos(small@, p@);
                }
                // reduce the product of the remainders
                let r0r1 = bi_mul(&r0, &r1);
                proof {
                    vstd::arithmetic::mul::lemma_mul_nonnegative(r0@, r1@);
                }
                let (divq, rem) = bi_divrem(&r0r1, p);
                proof {
                    vstd::arithmetic::div_mod::lemma_fundamental_div_mod_converse(
                        r0r1@, p@, divq@, rem@);
                    vstd::arithmetic::div_mod::lemma_div_pos_is_pos(r0r1@, p@);
                }
                // the base raised to the leftover quotient terms
                let q1r0 = bi_mul(&q1, &r0);
                let q1r0_div = bi_add(&q1r0, &divq);
                proof {
                    vstd::arithmetic::mul::lemma_mul_nonnegative(q1@, r0@);
                }
                let g_tail = base.exp(&q1r0_div);
                let out = q0_s.op(&g_tail);
                proof {
                    let total = node_val(self.nodes@, i as int);
                    let qt = q0 * small@ + q1@ * r0@ + divq@;
                    assert(total == qt * p@ + rem@) by (nonlinear_arith)
                        requires
                            total == n0 * small@,
                            n0 == p@ * q0 + r0@,
                            small@ == q1@ * p@ + r1@,
                            r0@ * r1@ == divq@ * p@ + rem@,
                            qt == q0 * small@ + q1@ * r0@ + divq@,
                    {}
                    assert(qt >= 0) by {
                        vstd::arithmetic::mul::lemma_mul_nonnegative(q0, small@);
                        vstd::arithmetic::mul::lemma_mul_nonnegative(q1@, r0@);
                    }
                    vstd::arithmetic::div_mod::lemma_fundamental_div_mod_converse(
                        total, p@, qt, rem@);
                    // the group side: base^(q0 s) * base^(q1 r0 + div)
                    G::lemma_exp_exp(base.gv(), q0, small@);
                    assert(q0 * small@ >= 0) by {
                        vstd::arithmetic::mul::lemma_mul_nonnegative(q0, small@);
                    }
                    G::lemma_exp_add(base.gv(), q0 * small@, q1@ * r0@ + divq@);
                }
                (out, rem)
            },
            ReduceNode::Sum { left, right } => {
                let (ql_elem, rl) = self.reduce(*left, base, p);
                let (qr_elem, rr) = self.reduce(*right, base, p);
                let ghost nl = node_val(self.nodes@, *left as int);
                let ghost nr = node_val(self.nodes@, *right as int);
                proof {
                    self.lemma_val_nonneg(*left as int);
                    self.lemma_val_nonneg(*right as int);
                    vstd::arithmetic::div_mod::lemma_div_pos_is_pos(nl, p@);
                    vstd::arithmetic::div_mod::lemma_div_pos_is_pos(nr, p@);
                    vstd::arithmetic::div_mod::lemma_fundamental_div_mod(nl, p@);
                    vstd::arithmetic::div_mod::lemma_fundamental_div_mod(nr, p@);
                }
                let rsum = bi_add(&rl, &rr);
                let (divq, rem) = bi_divrem(&rsum, p);
                proof {
                    vstd::arithmetic::div_mod::lemma_fundamental_div_mod_converse(
                        rsum@, p@, divq@, rem@);
                    vstd::arithmetic::div_mod::lemma_div_pos_is_pos(rsum@, p@);
                }
                let g_div = base.exp(&divq);
                let qlr = ql_elem.op(&qr_elem);
                let out = g_div.op(&qlr);
                proof {
                    let total = node_val(self.nodes@, i as int);
                    let ql = nl / p@;
                    let qr = nr / p@;
                    let qt = ql + qr + divq@;
                    assert(total == qt * p@ + rem@) by (nonlinear_arith)
                        requires
                            total == nl + nr,
                            nl == p@ * ql + rl@,
                            nr == p@ * qr + rr@,
                            rl@ + rr@ == divq@ * p@ + rem@,
                            qt == ql + qr + divq@,
                    {}
                    vstd::arithmetic::div_mod::lemma_fundamental_div_mod_converse(
                        total, p@, qt, rem@);
                    G::lemma_exp_add(base.gv(), ql, qr);
                    G::lemma_exp_add(base.gv(), divq@, ql + qr);
                    G::lemma_op_comm(G::sexp(base.gv(), divq@), G::sexp(base.gv(), ql + qr));
                }
                (out, rem)
            },
        }
    }
}

/// Appending nodes to the arena does not change the values of the nodes
/// already present.
pub proof fn lemma_node_val_extend(olds: Seq<ReduceNode>, news: Seq<ReduceNode>)
    ensures
        olds.is_prefix_of(news) ==> forall|i: int| 0 <= i < olds.len()
            ==> #[trigger] node_val(news, i) == node_val(olds, i),
{
    if olds.is_prefix_of(news) {
        assert forall|i: int| 0 <= i < olds.len()
            implies #[trigger] node_val(news, i) == node_val(olds, i) by {
            lemma_node_val_extend_one(olds, news, i);
        }
    }
}

proof fn lemma_node_val_extend_one(olds: Seq<ReduceNode>, news: Seq<ReduceNode>, i: int)
    requires
        olds.is_prefix_of(news),
        0 <= i < olds.len(),
    ensures
        node_val(news, i) == node_val(olds, i),
    decreases i,
{
    assert(news[i] == olds[i]);
    match olds[i] {
        ReduceNode::Leaf(b) => {},
        ReduceNode::Product { child, small } => {
            if (child as int) < i {
                lemma_node_val_extend_one(olds, news, child as int);
            }
        },
        ReduceNode::Sum { left, right } => {
            if (left as int) < i && (right as int) < i {
                lemma_node_val_extend_one(olds, news, left as int);
                lemma_node_val_extend_one(olds, news, right as int);
            }
        },
    }
}

/// The naive strategy: form the whole product first, divide once, and
/// exponentiate once. Returns exactly what `ReduceTree::reduce` returns on
/// a product chain over the same integers.
pub fn naive_reduce<G: UnknownOrderGroup>(base: &G, elems: &Vec<Bigint>, p: &Bigint)
    -> (res: (G, Bigint))
    requires
        base.wf(),
        keys_ok(elems@),
        p.wf(),
        p@ > 0,
    ensures
        res.0.wf(),
        res.0.gv() == G::sexp(base.gv(), product_of(key_views(elems@)) / p@),
        res.1.wf(),
        res.1@ == product_of(key_views(elems@)) % p@,
{
    let mut total = Bigint::from_u64(1);
    let mut i: usize = 0;
    while i < elems.len()
        invariant
            0 <= i <= elems.len(),
            keys_ok(elems@),
            total.wf(),
            total@ == product_of(key_views(elems@).take(i as int)),
        decreases elems.len() - i,
    {
        proof {
            assert(key_views(elems@).take(i + 1).drop_last()
                =~= key_views(elems@).take(i as int));
            assert(key_views(elems@).take(i + 1).last() == elems@[i as int]@);
        }
        total = bi_mul(&total, &elems[i]);
        i = i + 1;
    }
    proof {
        assert(key_views(elems@).take(elems@.len() as int) =~= key_views(elems@));
        lemma_product_nonneg(key_views(elems@));
    }
    let (q, r) = bi_divrem(&total, p);
    proof {
        vstd::arithmetic::div_mod::lemma_fundamental_div_mod_converse(total@, p@, q@, r@);
        vstd::arithmetic::div_mod::lemma_div_pos_is_pos(total@, p@);
    }
    (base.exp(&q), r)
}

} // verus!
