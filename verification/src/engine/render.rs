use vstd::prelude::*;

use super::node::Node;
use super::node::NodeContent;
use super::node::NodeContentV;
use super::node::NodeV;

verus! {

broadcast use vstd::std_specs::vec::axiom_vec_index_decreases;

/// The bytes before a named node's name.
pub const NAME_OPEN: [u8; 10] = [123, 34, 110, 97, 109, 101, 34, 58, 32, 34];

/// The bytes between a named node's name and its content.
pub const CONTENT_OPEN: [u8; 15] = [34, 44, 32, 34, 99, 111, 110, 116, 101, 110, 116, 34, 58, 32, 91];

/// The bytes closing a named node.
pub const NAME_CLOSE: [u8; 2] = [93, 125];

/// The bytes between two rendered children.
pub const JOIN: [u8; 2] = [44, 32];

/// How one node renders: a named node as a name/content object, an
/// unnamed node as a bracketed list; a literal as its quoted span, and
/// children joined by a comma.
pub open spec fn srender(m: NodeV) -> Seq<u8>
    decreases m, 1int, 0int,
{
    match m.name {
        Some(name) => NAME_OPEN@.add(name).add(CONTENT_OPEN@).add(srender_content(m.content)).add(
            NAME_CLOSE@,
        ),
        None => seq![91u8].add(srender_content(m.content)).add(seq![93u8]),
    }
}

/// How a node's content renders.
pub open spec fn srender_content(c: NodeContentV) -> Seq<u8>
    decreases c, 2int, 0int,
{
    match c {
        NodeContentV::Literal(span) => seq![34u8].add(span).add(seq![34u8]),
        NodeContentV::Cons(children) => srender_list(children, 0),
    }
}

/// How the children from position `i` on render, joined by commas.
pub open spec fn srender_list(ms: Seq<NodeV>, i: int) -> Seq<u8>
    decreases ms, 1int, ms.len() - i,
{
    if i < 0 || i >= ms.len() {
        Seq::empty()
    } else if i == ms.len() - 1 {
        srender(ms[i])
    } else {
        srender(ms[i]).add(JOIN@).add(srender_list(ms, i + 1))
    }
}

/// Appends every byte of `bytes` to `out`.
fn push_bytes(out: &mut Vec<u8>, bytes: &[u8])
    ensures
        final(out)@ == old(out)@.add(bytes@),
{
    let mut i: usize = 0;
    while i < bytes.len()
        invariant
            i <= bytes@.len(),
            out@ == old(out)@.add(bytes@.take(i as int)),
        decreases bytes@.len() - i,
    {
        let ghost before = out@;
        out.push(bytes[i]);
        proof {
            assert(out@ =~= old(out)@.add(bytes@.take(i + 1)));
        }
        i += 1;
    }
    proof {
        assert(bytes@.take(bytes@.len() as int) =~= bytes@);
    }
}

impl<'g, 'i> Node<'g, 'i> {
    /// Renders the tree as text, as `srender` describes.
    pub fn render(&self) -> (r: Vec<u8>)
        ensures
            r@ == srender(self@),
        decreases self, 3int, 0int,
    {
        let mut out: Vec<u8> = Vec::new();
        proof {
            assert(out@ =~= Seq::<u8>::empty());
        }
        self.render_into(&mut out);
        proof {
            assert(Seq::<u8>::empty().add(srender(self@)) =~= srender(self@));
        }
        out
    }

    /// Appends this node's rendering to `out`.
    fn render_into(&self, out: &mut Vec<u8>)
        ensures
            final(out)@ == old(out)@.add(srender(self@)),
        decreases self, 2int, 0int,
    {
        let ghost start = out@;
        match self.name {
            Some(name) => {
                push_bytes(out, vstd::array::array_as_slice(&NAME_OPEN));
                push_bytes(out, name);
                push_bytes(out, vstd::array::array_as_slice(&CONTENT_OPEN));
                self.content_into(out);
                push_bytes(out, vstd::array::array_as_slice(&NAME_CLOSE));
                proof {
                    assert(out@ =~= start.add(srender(self@)));
                }
            },
            None => {
                let bracket_open: &[u8] = &[91u8];
                let bracket_close: &[u8] = &[93u8];
                proof {
                    assert(bracket_open@ =~= seq![91u8]);
                    assert(bracket_close@ =~= seq![93u8]);
                }
                push_bytes(out, bracket_open);
                self.content_into(out);
                push_bytes(out, bracket_close);
                proof {
                    assert(out@ =~= start.add(srender(self@)));
                }
            },
        }
    }

    /// Appends this node's content rendering to `out`.
    fn content_into(&self, out: &mut Vec<u8>)
        ensures
            final(out)@ == old(out)@.add(srender_content(self@.content)),
        decreases self, 1int, 0int,
    {
        let ghost start = out@;
        match &self.content {
            NodeContent::Literal(span) => {
                let quote: &[u8] = &[34u8];
                proof {
                    assert(quote@ =~= seq![34u8]);
                }
                push_bytes(out, quote);
                push_bytes(out, span);
                push_bytes(out, quote);
                proof {
                    assert(out@ =~= start.add(srender_content(self@.content)));
                }
            },
            NodeContent::Cons(children) => {
                proof {
                    assert(self@.content->Cons_0 =~= super::node::nodes_view(*children));
                }
                render_children(children, 0, out);
            },
        }
    }
}

/// Appends the renderings of the children from position `i` on, joined
/// by commas, to `out`.
fn render_children<'g, 'i>(v: &Vec<Node<'g, 'i>>, i: usize, out: &mut Vec<u8>)
    ensures
        final(out)@ == old(out)@.add(srender_list(super::node::nodes_view(*v), i as int)),
    decreases v, 2int, v.len() - i,
{
    let ghost ms = super::node::nodes_view(*v);
    proof {
        super::node::lemma_nodes_view_from(*v, 0);
    }
    if i >= v.len() {
        proof {
            assert(out@ =~= out@.add(srender_list(ms, i as int)));
        }
        return ;
    }
    let ghost start = out@;
    v[i].render_into(out);
    proof {
        assert(super::node::node_view(v@[i as int]) == ms[i as int]);
    }
    if i < v.len() - 1 {
        push_bytes(out, vstd::array::array_as_slice(&JOIN));
        render_children(v, i + 1, out);
        proof {
            assert(out@ =~= start.add(srender_list(ms, i as int)));
        }
    } else {
        proof {
            assert(out@ =~= start.add(srender_list(ms, i as int)));
        }
    }
}

} // verus!
