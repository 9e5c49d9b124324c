//! Markdown to HTML, without images.
//!
//! comrak parses the text and writes the HTML; which nodes of the parsed
//! document are left out is decided here. A node is left out, with all that
//! is below it, when it is an image, or when it has children and all of them
//! are images.

use comrak::nodes::{AstNode, NodeValue};
use comrak::{format_html, parse_document, Arena, ComrakOptions};
use vstd::prelude::*;

verus! {

/// What the filter reads of one node of a parsed document. The nodes of a
/// document are numbered in tree order, a parent before what is below it,
/// and `parent` is the number of the node's parent.
#[derive(Debug, Clone, Copy, PartialEq, Eq)]
pub struct NodeShape {
    pub parent: Option<usize>,
    pub image: bool,
}

/// The text could not be rendered.
#[derive(Debug, Clone, Copy, PartialEq, Eq)]
pub enum MarkdownError {
    Render,
}

/// Node `j` is a child of node `n`.
pub open spec fn child_of(outline: Seq<NodeShape>, j: int, n: int) -> bool {
    0 <= j < outline.len() && outline[j].parent == Some(n as usize)
}

/// Node `n` has a child.
pub open spec fn has_child(outline: Seq<NodeShape>, n: int) -> bool {
    exists|j: int| child_of(outline, j, n)
}

/// Every child of node `n` is an image.
pub open spec fn only_image_children(outline: Seq<NodeShape>, n: int) -> bool {
    forall|j: int| child_of(outline, j, n) ==> outline[j].image
}

/// Node `n` is left out: it is an image, or it has children and all of them
/// are images.
pub open spec fn is_dropped(outline: Seq<NodeShape>, n: int) -> bool {
    outline[n].image || (has_child(outline, n) && only_image_children(outline, n))
}

/// Holds of the numbers of the nodes that are left out.
pub open spec fn dropped_in(outline: Seq<NodeShape>) -> spec_fn(usize) -> bool {
    |n: usize| is_dropped(outline, n as int)
}

/// The numbers of the nodes that are left out, ascending.
pub open spec fn dropped(outline: Seq<NodeShape>) -> Seq<usize> {
    Seq::new(outline.len(), |n: int| n as usize).filter(dropped_in(outline))
}

/// The outline of the document that comrak parses from a text, with its
/// default options.
pub uninterp spec fn markdown_outline(md: Seq<char>) -> Seq<NodeShape>;

/// The HTML that comrak writes, with its default options, for the document
/// parsed from a text after the nodes with the given numbers were detached;
/// nothing where the HTML could not be written or is no text.
pub uninterp spec fn pruned_html(md: Seq<char>, detached: Seq<usize>) -> Option<Seq<char>>;

/// Parses the text with comrak's `parse_document` and lists, for each node
/// that `descendants` yields from the root, the place of its parent in that
/// list and whether its value is `NodeValue::Image`. Claimed of it: the same
/// text gives the same outline.
#[verifier::external_body]
fn parse_outline(md: &str) -> (r: Vec<NodeShape>)
    ensures
        r@ == markdown_outline(md@),
{
    let arena = Arena::new();
    let root = parse_document(&arena, md, &ComrakOptions::default());
    let nodes: Vec<&AstNode> = root.descendants().collect();
    nodes.iter().map(
        |n| NodeShape {
            parent: n.parent().and_then(|p| nodes.iter().position(|m| m.same_node(p))),
            image: matches!(n.data.borrow().value, NodeValue::Image(_)),
        },
    ).collect()
}

/// Parses the text with comrak's `parse_document`, calls `detach` on the
/// nodes with the given numbers, counted as `descendants` yields them from
/// the root before any is detached, and writes the rest with `format_html`.
/// Claimed of it: the same text and numbers give the same HTML.
#[verifier::external_body]
fn render_without(md: &str, detached: &Vec<usize>) -> (r: Option<String>)
    requires
        forall|i: int| 0 <= i < detached.len() ==> detached[i] < markdown_outline(md@).len(),
    ensures
        match r {
            Some(html) => pruned_html(md@, detached@) == Some(html@),
            None => pruned_html(md@, detached@) is None,
        },
{
    let arena = Arena::new();
    let root = parse_document(&arena, md, &ComrakOptions::default());
    let nodes: Vec<&AstNode> = root.descendants().collect();
    detached.iter().for_each(|n| nodes[*n].detach());
    let mut html = vec![];
    format_html(root, &ComrakOptions::default(), &mut html).ok()?;
    String::from_utf8(html).ok()
}

/// The numbers of the nodes that the filter leaves out, ascending.
pub fn dropped_nodes(outline: &Vec<NodeShape>) -> (r: Vec<usize>)
    ensures
        r@ == dropped(outline@),
        forall|i: int| 0 <= i < r.len() ==> r[i] < outline.len(),
{
    let n = outline.len();
    let mut some_child: Vec<bool> = Vec::new();
    let mut plain_child: Vec<bool> = Vec::new();
    let mut k: usize = 0;
    while k < n
        invariant
            k <= n,
            some_child.len() == k,
            plain_child.len() == k,
            forall|i: int| 0 <= i < k ==> !some_child[i] && !plain_child[i],
        decreases n - k,
    {
        some_child.push(false);
        plain_child.push(false);
        k += 1;
    }
    let mut j: usize = 0;
    while j < n
        invariant
            j <= n,
            n == outline.len(),
            some_child.len() == n,
            plain_child.len() == n,
            forall|p: int|
                0 <= p < n ==> (#[trigger] some_child[p] <==> exists|i: int|
                    0 <= i < j && child_of(outline@, i, p)),
            forall|p: int|
                0 <= p < n ==> (#[trigger] plain_child[p] <==> exists|i: int|
                    0 <= i < j && child_of(outline@, i, p) && !outline[i].image),
        decreases n - j,
    {
        let shape = outline[j];
        match shape.parent {
            Some(p) => {
                if p < n {
                    some_child.set(p, true);
                    if !shape.image {
                        plain_child.set(p, true);
                    }
                    proof {
                        assert(child_of(outline@, j as int, p as int));
                    }
                }
            },
            None => {},
        }
        proof {
            assert forall|p: int| 0 <= p < n implies (#[trigger] some_child[p] <==> exists|i: int|
                0 <= i < j + 1 && child_of(outline@, i, p)) by {
                if exists|i: int| 0 <= i < j + 1 && child_of(outline@, i, p) {
                    let i = choose|i: int| 0 <= i < j + 1 && child_of(outline@, i, p);
                    if i < j {
                        assert(0 <= i < j && child_of(outline@, i, p));
                    }
                }
            }
            assert forall|p: int| 0 <= p < n implies (#[trigger] plain_child[p] <==> exists|i: int|
                0 <= i < j + 1 && child_of(outline@, i, p) && !outline[i].image) by {
                if exists|i: int|
                    0 <= i < j + 1 && child_of(outline@, i, p) && !outline[i].image {
                    let i = choose|i: int|
                        0 <= i < j + 1 && child_of(outline@, i, p) && !outline[i].image;
                    if i < j {
                        assert(0 <= i < j && child_of(outline@, i, p) && !outline[i].image);
                    }
                }
            }
        }
        j += 1;
    }
    let ghost numbers = Seq::new(outline@.len(), |n: int| n as usize);
    let mut out: Vec<usize> = Vec::new();
    let mut m: usize = 0;
    proof {
        assert(numbers.take(0).filter(dropped_in(outline@)) =~= out@);
    }
    while m < n
        invariant
            m <= n,
            n == outline.len(),
            some_child.len() == n,
            plain_child.len() == n,
            numbers == Seq::new(outline@.len(), |n: int| n as usize),
            forall|p: int|
                0 <= p < n ==> (#[trigger] some_child[p] <==> exists|i: int|
                    0 <= i < n && child_of(outline@, i, p)),
            forall|p: int|
                0 <= p < n ==> (#[trigger] plain_child[p] <==> exists|i: int|
                    0 <= i < n && child_of(outline@, i, p) && !outline[i].image),
            out@ == numbers.take(m as int).filter(dropped_in(outline@)),
            forall|i: int| 0 <= i < out.len() ==> out[i] < n,
        decreases n - m,
    {
        let drop = outline[m].image || (some_child[m] && !plain_child[m]);
        proof {
            let o = outline@;
            assert(numbers.take(m + 1) =~= numbers.take(m as int).push(m));
            numbers.take(m as int).lemma_filter_push(m, dropped_in(o));
            if some_child[m as int] {
                let i = choose|i: int| 0 <= i < n && child_of(o, i, m as int);
                assert(has_child(o, m as int));
            }
            if has_child(o, m as int) {
                let i = choose|i: int| child_of(o, i, m as int);
                assert(0 <= i < n && child_of(o, i, m as int));
            }
            if plain_child[m as int] {
                let i = choose|i: int| 0 <= i < n && child_of(o, i, m as int) && !o[i].image;
                assert(!only_image_children(o, m as int));
            }
            if !only_image_children(o, m as int) {
                let i = choose|i: int| child_of(o, i, m as int) && !o[i].image;
                assert(0 <= i < n && child_of(o, i, m as int) && !o[i].image);
            }
            assert(drop == is_dropped(o, m as int));
        }
        if drop {
            out.push(m);
        }
        m += 1;
    }
    proof {
        assert(numbers.take(n as int) =~= numbers);
    }
    out
}

/// Renders markdown as HTML, leaving out every image and every node all of
/// whose children are images.
pub fn markdown_to_html(md: &str) -> (r: Result<String, MarkdownError>)
    ensures
        match r {
            Ok(html) => pruned_html(md@, dropped(markdown_outline(md@))) == Some(html@),
            Err(_) => pruned_html(md@, dropped(markdown_outline(md@))) is None,
        },
{
    let outline = parse_outline(md);
    let detached = dropped_nodes(&outline);
    match render_without(md, &detached) {
        Some(html) => Ok(html),
        None => Err(MarkdownError::Render),
    }
}

} // verus!
