//! A syntax tree held as plain values: what the operations read of a
//! tree-sitter tree, node by node.
use vstd::prelude::*;
use vstd::utf8::*;
use crate::text::{bytes_of, slice, slice_text, str_eq};

verus! {

broadcast use vstd::utf8::group_utf8_lib;

/// One node of a concrete syntax tree, with all of its children (named and
/// anonymous) in source order.
pub struct SyntaxNode {
    /// The grammar's name for the node type, such as `function_item`.
    pub kind: &'static str,
    /// The field under which the node stands in its parent, if any.
    pub field: Option<&'static str>,
    /// Whether the node is named (not a literal token).
    pub named: bool,
    pub start_byte: usize,
    pub end_byte: usize,
    /// Zero-based row and column (in bytes) where the node starts.
    pub start_row: usize,
    pub start_col: usize,
    /// Zero-based row and column (in bytes) where the node ends.
    pub end_row: usize,
    pub end_col: usize,
    pub children: Vec<SyntaxNode>,
}

/// Whether `n` stands under the field `f`.
pub open spec fn has_field(n: SyntaxNode, f: Seq<char>) -> bool {
    match n.field {
        Some(x) => x@ == f,
        None => false,
    }
}

/// The index of the first of `cs[i..]` that stands under the field `f`.
pub open spec fn first_with_field(cs: Seq<SyntaxNode>, f: Seq<char>, i: int) -> Option<int>
    decreases cs.len() - i,
{
    if i < 0 || i >= cs.len() {
        None
    } else if has_field(cs[i], f) {
        Some(i)
    } else {
        first_with_field(cs, f, i + 1)
    }
}

/// A found index lies in `cs[i..]`.
pub proof fn lemma_first_with_field_range(cs: Seq<SyntaxNode>, f: Seq<char>, i: int)
    ensures
        first_with_field(cs, f, i) matches Some(j) ==> 0 <= i <= j < cs.len(),
    decreases cs.len() - i,
{
    if 0 <= i < cs.len() && !has_field(cs[i], f) {
        lemma_first_with_field_range(cs, f, i + 1);
    }
}

/// A found index lies in `cs[i..]`.
pub proof fn lemma_first_of_kind_range(cs: Seq<SyntaxNode>, k: Seq<char>, i: int)
    ensures
        first_of_kind(cs, k, i) matches Some(j) ==> 0 <= i <= j < cs.len() && cs[j].kind@ == k,
    decreases cs.len() - i,
{
    if 0 <= i < cs.len() && cs[i].kind@ != k {
        lemma_first_of_kind_range(cs, k, i + 1);
    }
}

/// The index of the first of `cs[i..]` whose kind is `k`, if any.
pub open spec fn first_of_kind(cs: Seq<SyntaxNode>, k: Seq<char>, i: int) -> Option<int>
    decreases cs.len() - i,
{
    if i < 0 || i >= cs.len() {
        None
    } else if cs[i].kind@ == k {
        Some(i)
    } else {
        first_of_kind(cs, k, i + 1)
    }
}

impl SyntaxNode {
    /// The first child under field `f` (tree-sitter's `child_by_field_name`).
    pub open spec fn field_child(self, f: Seq<char>) -> Option<SyntaxNode> {
        match first_with_field(self.children@, f, 0) {
            Some(j) => Some(self.children@[j]),
            None => None,
        }
    }

    /// The node's text within a source whose UTF-8 bytes are `src`.
    pub open spec fn text(self, src: Seq<u8>) -> Option<Seq<char>> {
        slice_text(src, self.start_byte as int, self.end_byte as int)
    }

    /// Whether `d` lies below the node: a child of it, or below a child.
    pub open spec fn below(self, d: SyntaxNode) -> bool
        decreases self,
    {
        exists|i: int|
            0 <= i < self.children@.len() && (self.children@[i] == d || (#[trigger] self.children@[i]).below(d))
    }

    /// Positions fit the source `src`: byte offsets are character boundaries,
    /// children lie in order inside their parent, rows are in order.
    pub open spec fn wf(self, src: Seq<u8>) -> bool
        decreases self,
    {
        &&& self.start_byte <= self.end_byte <= src.len()
        &&& is_char_boundary(src, self.start_byte as int)
        &&& is_char_boundary(src, self.end_byte as int)
        &&& self.start_row <= self.end_row < usize::MAX
        &&& forall|i: int|
            0 <= i < self.children@.len() ==> {
                &&& self.start_byte <= (#[trigger] self.children@[i]).start_byte
                &&& self.children@[i].end_byte <= self.end_byte
                &&& self.start_row <= self.children@[i].start_row
                &&& self.children@[i].end_row <= self.end_row
                &&& self.children@[i].wf(src)
            }
        &&& forall|j: int, k: int|
            #![trigger self.children@[j], self.children@[k]]
            0 <= j < k < self.children@.len() ==> self.children@[j].end_byte
                <= self.children@[k].start_byte
    }

    /// Whether the node's kind is `k`.
    pub fn is_kind(&self, k: &str) -> (res: bool)
        ensures
            res == (self.kind@ == k@),
    {
        str_eq(self.kind, k)
    }

    /// The first child under field `f`.
    pub fn child_by_field_name(&self, f: &str) -> (res: Option<&SyntaxNode>)
        ensures
            match res {
                Some(c) => self.field_child(f@) == Some(*c),
                None => self.field_child(f@) is None,
            },
    {
        let mut i: usize = 0;
        while i < self.children.len()
            invariant
                i <= self.children@.len(),
                first_with_field(self.children@, f@, 0) == first_with_field(self.children@, f@, i as int),
            decreases self.children@.len() - i,
        {
            let c = &self.children[i];
            let hit = match c.field {
                Some(x) => str_eq(x, f),
                None => false,
            };
            if hit {
                proof {
                    lemma_first_with_field_range(self.children@, f@, 0);
                }
                return Some(c);
            }
            i = i + 1;
        }
        None
    }

    /// The node's text, or `None` when its range is not a piece of `source`.
    pub fn text_in(&self, source: &str) -> (res: Option<String>)
        ensures
            match res {
                Some(t) => self.text(bytes_of(source@)) == Some(t@),
                None => self.text(bytes_of(source@)) is None,
            },
    {
        slice(source, self.start_byte, self.end_byte)
    }

    /// Whether the node and all nodes below it fit `source`.
    #[verifier::rlimit(40)]
    pub fn check_wf(&self, source: &str) -> (res: bool)
        ensures
            res == self.wf(bytes_of(source@)),
        decreases self,
    {
        let ghost src = bytes_of(source@);
        let len = source.as_bytes().len();
        if !(self.start_byte <= self.end_byte && self.end_byte <= len) {
            return false;
        }
        if !source.is_char_boundary(self.start_byte) || !source.is_char_boundary(self.end_byte) {
            return false;
        }
        if !(self.start_row <= self.end_row && self.end_row < usize::MAX) {
            return false;
        }
        let n = self.children.len();
        let mut i: usize = 0;
        while i < n
            invariant
                n == self.children@.len(),
                i <= n,
                src == bytes_of(source@),
                forall|j: int|
                    0 <= j < i ==> {
                        &&& self.start_byte <= (#[trigger] self.children@[j]).start_byte
                        &&& self.children@[j].end_byte <= self.end_byte
                        &&& self.start_row <= self.children@[j].start_row
                        &&& self.children@[j].end_row <= self.end_row
                        &&& self.children@[j].wf(src)
                    },
                forall|j: int, k: int|
                    #![trigger self.children@[j], self.children@[k]]
                    0 <= j < k < i ==> self.children@[j].end_byte <= self.children@[k].start_byte,
            decreases n - i,
        {
            let c = &self.children[i];
            if !(self.start_byte <= c.start_byte && c.end_byte <= self.end_byte
                && self.start_row <= c.start_row && c.end_row <= self.end_row) {
                return false;
            }
            if !c.check_wf(source) {
                return false;
            }
            if i > 0 && self.children[i - 1].end_byte > c.start_byte {
                return false;
            }
            assert forall|j: int, k: int|
                #![trigger self.children@[j], self.children@[k]]
                0 <= j < k < i + 1 implies self.children@[j].end_byte <= self.children@[k].start_byte by {
                if k == i && j < i - 1 {
                    assert(self.children@[j].end_byte <= self.children@[i - 1].start_byte);
                    assert(self.children@[i - 1].wf(src));
                }
            }
            i = i + 1;
        }
        true
    }
}

} // verus!
