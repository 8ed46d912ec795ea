//! Dotted paths such as `Base.Inner`.

use crate::text::{join, joined, texts};
use crate::token::{ident_at, is_ident, is_punct, punct_at, Token};
use vstd::prelude::*;

verus! {

/// A non-empty list of identifiers separated by `.`.
#[derive(Debug, PartialEq, Eq)]
pub struct SolPath {
    pub segments: Vec<String>,
}

impl Clone for SolPath {
    /// A path with the same segments.
    fn clone(&self) -> (r: SolPath)
        ensures
            r@ == self@,
    {
        let mut segments: Vec<String> = Vec::new();
        let mut i: usize = 0;
        while i < self.segments.len()
            invariant
                i <= self.segments@.len(),
                segments@.len() == i,
                forall|j: int| 0 <= j < i ==> segments@[j]@ == self.segments@[j]@,
            decreases self.segments@.len() - i,
        {
            segments.push(self.segments[i].clone());
            i = i + 1;
        }
        assert(texts(segments@) =~= texts(self.segments@));
        SolPath { segments }
    }
}

impl View for SolPath {
    type V = Seq<Seq<char>>;

    open spec fn view(&self) -> Seq<Seq<char>> {
        texts(self.segments@)
    }
}

/// The segments of the longest path that starts at `pos`; empty where no
/// identifier stands there. A `.` belongs to the path only when an identifier
/// follows it.
pub open spec fn path_segments(tokens: Seq<Token>, pos: int) -> Seq<Seq<char>>
    decreases tokens.len() - pos,
{
    if !ident_at(tokens, pos) {
        Seq::empty()
    } else if punct_at(tokens, pos + 1, "."@) && ident_at(tokens, pos + 2) {
        seq![tokens[pos].text@] + path_segments(tokens, pos + 2)
    } else {
        seq![tokens[pos].text@]
    }
}

/// The position behind the path that starts at `pos`.
pub open spec fn path_end(tokens: Seq<Token>, pos: int) -> int {
    pos + 2 * path_segments(tokens, pos).len() - 1
}

/// The text of a path: its segments joined by `.`.
pub open spec fn path_text(segments: Seq<Seq<char>>) -> Seq<char> {
    joined(segments, "."@)
}

/// A path at `pos` is never empty and ends inside the input.
pub proof fn lemma_path_bounds(tokens: Seq<Token>, pos: int)
    requires
        ident_at(tokens, pos),
    ensures
        path_segments(tokens, pos).len() >= 1,
        pos < path_end(tokens, pos) <= tokens.len(),
        path_segments(tokens, pos)[0] == tokens[pos].text@,
    decreases tokens.len() - pos,
{
    if punct_at(tokens, pos + 1, "."@) && ident_at(tokens, pos + 2) {
        lemma_path_bounds(tokens, pos + 2);
    }
}

impl SolPath {
    /// Reads the longest path that starts at `pos`; `None` where no identifier
    /// stands there.
    pub fn parse(tokens: &Vec<Token>, pos: usize) -> (r: Option<(SolPath, usize)>)
        ensures
            r is Some == ident_at(tokens@, pos as int),
            r matches Some((path, next)) ==> {
                &&& path@ == path_segments(tokens@, pos as int)
                &&& next as int == path_end(tokens@, pos as int)
                &&& pos < next <= tokens@.len()
            },
    {
        if !is_ident(tokens, pos) {
            return None;
        }
        let mut segments: Vec<String> = Vec::new();
        segments.push(tokens[pos].text.clone());
        let mut cur: usize = pos;
        proof {
            lemma_path_bounds(tokens@, pos as int);
        }
        let n = tokens.len();
        while cur < n - 1 && is_punct(tokens, cur + 1, ".") && is_ident(tokens, cur + 2)
            invariant
                n == tokens@.len(),
                pos <= cur < tokens@.len(),
                ident_at(tokens@, cur as int),
                segments@.len() >= 1,
                texts(segments@).drop_last() + path_segments(
                    tokens@,
                    cur as int,
                ) == path_segments(tokens@, pos as int),
                segments@.last()@ == tokens@[cur as int].text@,
                cur + 1 == pos + 2 * segments@.len() - 1,
            decreases tokens@.len() - cur,
        {
            let ghost before = texts(segments@);
            segments.push(tokens[cur + 2].text.clone());
            cur = cur + 2;
            proof {
                let after = texts(segments@);
                assert(after.drop_last() =~= before);
                assert(before =~= before.drop_last() + seq![before.last()]);
                assert(before.drop_last() + (seq![before.last()] + path_segments(
                    tokens@,
                    cur as int,
                )) =~= before.drop_last() + seq![before.last()] + path_segments(
                    tokens@,
                    cur as int,
                ));
            }
        }
        proof {
            let all = texts(segments@);
            assert(path_segments(tokens@, cur as int) =~= seq![tokens@[cur as int].text@]);
            assert(all =~= all.drop_last() + seq![all.last()]);
        }
        Some((SolPath { segments }, cur + 1))
    }

    /// Whether two paths have the same segments.
    pub fn same(&self, other: &SolPath) -> (r: bool)
        ensures
            r == (self@ == other@),
    {
        if self.segments.len() != other.segments.len() {
            assert(self@.len() != other@.len());
            return false;
        }
        let mut i: usize = 0;
        while i < self.segments.len()
            invariant
                i <= self.segments@.len(),
                self.segments@.len() == other.segments@.len(),
                forall|j: int| 0 <= j < i ==> self@[j] == other@[j],
            decreases self.segments@.len() - i,
        {
            if self.segments[i] != other.segments[i] {
                assert(self@[i as int] != other@[i as int]);
                return false;
            }
            i = i + 1;
        }
        assert(self@ =~= other@);
        true
    }

    /// The path as text, its segments joined by `.`.
    pub fn to_string(&self) -> (r: String)
        ensures
            r@ == path_text(self@),
    {
        join(&self.segments, ".")
    }
}

} // verus!
