//! Mathematical models of the document tree: like the executable types,
//! with nested elements as sequences, and the views that connect the two.

use vstd::prelude::*;
use crate::document::{BlockElement, Derivation, InlineRange, ListItem, ListMarkKind, TheoremKind};
use crate::inline::{ies_view, InlineModel};

verus! {

/// Mathematical model of a block element.
#[verifier::ext_equal]
pub enum BlockModel {
    Heading { level: int, content: Seq<InlineModel> },
    Paragraph { content: Seq<InlineModel> },
    Code { lines: Seq<InlineRange> },
    Math { lines: Seq<InlineRange> },
    Theorem { kind: TheoremKind, title: Seq<InlineModel>, content: Seq<BlockModel> },
    Proof { content: Seq<BlockModel> },
    Derivation { tree: DerivationModel },
    List { mark_kind: ListMarkKind, items: Seq<ListItemModel> },
    Blockquote { inner: Seq<BlockModel> },
    Fail,
}

/// Mathematical model of a derivation tree.
#[verifier::ext_equal]
pub enum DerivationModel {
    InferenceRule {
        premises: Seq<DerivationModel>,
        conclusion: Seq<InlineModel>,
        rule_name: Seq<InlineModel>,
    },
    Leaf { content: Seq<InlineModel> },
}

/// Mathematical model of a list item.
#[verifier::ext_equal]
pub struct ListItemModel {
    pub top_line: Seq<InlineModel>,
    pub blocks: Seq<BlockModel>,
}

/// The model a derivation denotes.
pub open spec fn deriv_view(d: Derivation) -> DerivationModel
    decreases d via deriv_view_decreases
{
    match d {
        Derivation::InferenceRule { premises, conclusion, rule_name } => {
            DerivationModel::InferenceRule {
                premises: Seq::new(
                    premises@.len(),
                    |i: int|
                        if 0 <= i < premises@.len() {
                            deriv_view(premises@[i])
                        } else {
                            DerivationModel::Leaf { content: Seq::empty() }
                        },
                ),
                conclusion: ies_view(conclusion@),
                rule_name: ies_view(rule_name@),
            }
        },
        Derivation::Leaf(content) => DerivationModel::Leaf { content: ies_view(content@) },
    }
}

#[via_fn]
proof fn deriv_view_decreases(d: Derivation) {
    broadcast use vstd::std_specs::vec::axiom_vec_index_decreases;

    match d {
        Derivation::InferenceRule { premises, conclusion, rule_name } => {
            assert forall|i: int| 0 <= i < premises@.len() implies (decreases_to!(
                d => premises@[i]
            )) by {
                assert(decreases_to!(d => premises));
                assert(decreases_to!(premises => premises[i]));
            }
        },
        _ => {},
    }
}

/// The models of a sequence of derivations.
pub open spec fn derivs_view(q: Seq<Derivation>) -> Seq<DerivationModel> {
    Seq::new(q.len(), |i: int| deriv_view(q[i]))
}

pub proof fn lemma_derivs_view_push(q: Seq<Derivation>, d: Derivation)
    ensures
        derivs_view(q.push(d)) =~= derivs_view(q).push(deriv_view(d)),
{
}

/// The model a block element denotes.
pub open spec fn be_view(e: BlockElement) -> BlockModel
    decreases e via be_view_decreases
{
    match e {
        BlockElement::Heading { level, content } => BlockModel::Heading {
            level: level as int,
            content: ies_view(content@),
        },
        BlockElement::Paragraph { content } => BlockModel::Paragraph {
            content: ies_view(content@),
        },
        BlockElement::Code { lines } => BlockModel::Code { lines: lines@ },
        BlockElement::Math { lines } => BlockModel::Math { lines: lines@ },
        BlockElement::Theorem { kind, title, content } => BlockModel::Theorem {
            kind,
            title: ies_view(title@),
            content: Seq::new(
                content@.len(),
                |i: int|
                    if 0 <= i < content@.len() {
                        be_view(content@[i])
                    } else {
                        BlockModel::Fail
                    },
            ),
        },
        BlockElement::Proof { content } => BlockModel::Proof {
            content: Seq::new(
                content@.len(),
                |i: int|
                    if 0 <= i < content@.len() {
                        be_view(content@[i])
                    } else {
                        BlockModel::Fail
                    },
            ),
        },
        BlockElement::Derivation(d) => BlockModel::Derivation { tree: deriv_view(d) },
        BlockElement::List { mark_kind, items } => BlockModel::List {
            mark_kind,
            items: Seq::new(
                items@.len(),
                |i: int|
                    if 0 <= i < items@.len() {
                        ListItemModel {
                            top_line: ies_view(items@[i].top_line@),
                            blocks: Seq::new(
                                items@[i].blocks@.len(),
                                |j: int|
                                    if 0 <= j < items@[i].blocks@.len() {
                                        be_view(items@[i].blocks@[j])
                                    } else {
                                        BlockModel::Fail
                                    },
                            ),
                        }
                    } else {
                        ListItemModel { top_line: Seq::empty(), blocks: Seq::empty() }
                    },
            ),
        },
        BlockElement::Blockquote { inner } => BlockModel::Blockquote {
            inner: Seq::new(
                inner@.len(),
                |i: int|
                    if 0 <= i < inner@.len() {
                        be_view(inner@[i])
                    } else {
                        BlockModel::Fail
                    },
            ),
        },
        BlockElement::ParseError => BlockModel::Fail,
    }
}

#[via_fn]
proof fn be_view_decreases(e: BlockElement) {
    broadcast use vstd::std_specs::vec::axiom_vec_index_decreases;

    match e {
        BlockElement::Theorem { kind, title, content } => {
            assert forall|i: int| 0 <= i < content@.len() implies (decreases_to!(
                e => content@[i]
            )) by {
                assert(decreases_to!(e => content));
                assert(decreases_to!(content => content[i]));
            }
        },
        BlockElement::Proof { content } => {
            assert forall|i: int| 0 <= i < content@.len() implies (decreases_to!(
                e => content@[i]
            )) by {
                assert(decreases_to!(e => content));
                assert(decreases_to!(content => content[i]));
            }
        },
        BlockElement::List { mark_kind, items } => {
            assert forall|i: int, j: int|
                0 <= i < items@.len() && 0 <= j < items@[i].blocks@.len() implies (decreases_to!(
                e => items@[i].blocks@[j]
            )) by {
                assert(decreases_to!(e => items));
                assert(decreases_to!(items => items[i]));
                assert(decreases_to!(items[i] => items[i].blocks));
                assert(decreases_to!(items[i].blocks => items[i].blocks[j]));
            }
        },
        BlockElement::Blockquote { inner } => {
            assert forall|i: int| 0 <= i < inner@.len() implies (decreases_to!(e => inner@[i])) by {
                assert(decreases_to!(e => inner));
                assert(decreases_to!(inner => inner[i]));
            }
        },
        _ => {},
    }
}

/// The models of a sequence of block elements.
pub open spec fn bes_view(q: Seq<BlockElement>) -> Seq<BlockModel> {
    Seq::new(q.len(), |i: int| be_view(q[i]))
}

pub proof fn lemma_bes_view_push(q: Seq<BlockElement>, e: BlockElement)
    ensures
        bes_view(q.push(e)) =~= bes_view(q).push(be_view(e)),
{
}


/// The model of a list item.
pub open spec fn list_item_view(it: ListItem) -> ListItemModel {
    ListItemModel { top_line: ies_view(it.top_line@), blocks: bes_view(it.blocks@) }
}

/// The models of a sequence of list items.
pub open spec fn lis_view(q: Seq<ListItem>) -> Seq<ListItemModel> {
    Seq::new(q.len(), |i: int| list_item_view(q[i]))
}

pub proof fn lemma_lis_view_push(q: Seq<ListItem>, it: ListItem)
    ensures
        lis_view(q.push(it)) =~= lis_view(q).push(list_item_view(it)),
{
    assert forall|i: int| 0 <= i < q.len() + 1 implies lis_view(q.push(it))[i] =~= lis_view(
        q,
    ).push(list_item_view(it))[i] by {}
}

/// How the view of a composite block element unfolds over the views of its
/// parts.
pub proof fn lemma_be_view_unfold(e: BlockElement)
    ensures
        e matches BlockElement::Theorem { kind, title, content } ==> be_view(e) =~= (
        BlockModel::Theorem { kind, title: ies_view(title@), content: bes_view(content@) }),
        e matches BlockElement::Proof { content } ==> be_view(e) =~= (BlockModel::Proof {
            content: bes_view(content@),
        }),
        e matches BlockElement::Blockquote { inner } ==> be_view(e) =~= (BlockModel::Blockquote {
            inner: bes_view(inner@),
        }),
        e matches BlockElement::List { mark_kind, items } ==> be_view(e) =~= (BlockModel::List {
            mark_kind,
            items: lis_view(items@),
        }),
        e matches BlockElement::Derivation(d) ==> be_view(e) == (BlockModel::Derivation {
            tree: deriv_view(d),
        }),
{
    match e {
        BlockElement::Theorem { kind, title, content } => {
            let lhs = be_view(e);
            match lhs {
                BlockModel::Theorem { kind: k2, title: t2, content: c2 } => {
                    assert(c2 =~= bes_view(content@));
                },
                _ => {},
            }
        },
        BlockElement::Proof { content } => {
            let lhs = be_view(e);
            match lhs {
                BlockModel::Proof { content: c2 } => {
                    assert(c2 =~= bes_view(content@));
                },
                _ => {},
            }
        },
        BlockElement::Blockquote { inner } => {
            let lhs = be_view(e);
            match lhs {
                BlockModel::Blockquote { inner: c2 } => {
                    assert(c2 =~= bes_view(inner@));
                },
                _ => {},
            }
        },
        BlockElement::List { mark_kind, items } => {
            let lhs = be_view(e);
            match lhs {
                BlockModel::List { mark_kind: mk, items: lhs_items } => {
                    assert forall|i: int| 0 <= i < items@.len() implies lhs_items[i] =~= lis_view(
                        items@,
                    )[i] by {
                        assert(lhs_items[i].blocks =~= bes_view(items@[i].blocks@));
                    }
                    assert(lhs_items =~= lis_view(items@));
                },
                _ => {},
            }
        },
        _ => {},
    }
}

/// How the view of an inference rule unfolds over the views of its parts.
pub proof fn lemma_deriv_view_unfold(d: Derivation)
    ensures
        d matches Derivation::InferenceRule { premises, conclusion, rule_name } ==> deriv_view(d)
            =~= (DerivationModel::InferenceRule {
            premises: derivs_view(premises@),
            conclusion: ies_view(conclusion@),
            rule_name: ies_view(rule_name@),
        }),
        d matches Derivation::Leaf(content) ==> deriv_view(d) == (DerivationModel::Leaf {
            content: ies_view(content@),
        }),
{
    match d {
        Derivation::InferenceRule { premises, conclusion, rule_name } => {
            let lhs = deriv_view(d);
            match lhs {
                DerivationModel::InferenceRule { premises: p2, conclusion: c2, rule_name: r2 } => {
                    assert(p2 =~= derivs_view(premises@));
                },
                _ => {},
            }
        },
        _ => {},
    }
}

} // verus!
