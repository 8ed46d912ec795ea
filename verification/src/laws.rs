//! What holds of reading attributes, whatever the tokens are.

use crate::error::ParseError;
use crate::function::{
    at_end, attributes_from, earlier, first_same, lemma_attribute_advances, unique, AttributeView,
};
use crate::clause::path_list;
use crate::path::{lemma_path_bounds, path_segments};
use crate::token::{ident_at, kind_at, lexed, punct_at, word_at, Token, TokenKind};
use vstd::prelude::*;

verus! {

/// The identity of attributes is an equivalence relation.
pub proof fn lemma_same_is_equivalence(a: AttributeView, b: AttributeView, c: AttributeView)
    ensures
        a.same(a),
        a.same(b) ==> b.same(a),
        a.same(b) && b.same(c) ==> a.same(c),
{
}

/// An attribute that is the same as one read before it ends the reading with
/// a duplicate error, which points at the new attribute first and at the
/// earlier one second.
pub proof fn lemma_duplicate_is_refused(
    tokens: Seq<Token>,
    pos: int,
    acc: Seq<AttributeView>,
    i: int,
)
    requires
        unique(acc),
        !at_end(tokens, pos),
        AttributeView::at(tokens, pos) is Ok,
        0 <= i < acc.len(),
        acc[i].same(AttributeView::at(tokens, pos)->Ok_0.0),
    ensures
        attributes_from(tokens, pos, acc) == Err::<(Seq<AttributeView>, int), _>(
            ParseError::duplicate(AttributeView::at(tokens, pos)->Ok_0.0.span(), acc[i].span()),
        ),
{
    let attr = AttributeView::at(tokens, pos)->Ok_0.0;
    assert forall|j: int| 0 <= j < i implies !(#[trigger] acc[j]).same(attr) by {
        if acc[j].same(attr) {
            lemma_same_is_equivalence(acc[j], attr, acc[i]);
            lemma_same_is_equivalence(acc[i], attr, acc[i]);
            assert(acc[j].same(acc[i]));
        }
    }
    assert(first_same(acc, attr, i));
    let k = choose|k: int| first_same(acc, attr, k);
    assert(k == i);
}

/// Two attributes of one category in a row, other than two modifiers of
/// different names, are refused: the error is the duplicate error, with the
/// place of the second attribute first and the place of the first one second.
pub proof fn lemma_two_of_a_kind_are_refused(tokens: Seq<Token>, pos: int)
    requires
        !at_end(tokens, pos),
        AttributeView::at(tokens, pos) is Ok,
        !at_end(tokens, AttributeView::at(tokens, pos)->Ok_0.1),
        AttributeView::at(tokens, AttributeView::at(tokens, pos)->Ok_0.1) is Ok,
        AttributeView::at(tokens, pos)->Ok_0.0.same(
            AttributeView::at(tokens, AttributeView::at(tokens, pos)->Ok_0.1)->Ok_0.0,
        ),
    ensures
        attributes_from(tokens, pos, Seq::empty()) == Err::<(Seq<AttributeView>, int), _>(
            ParseError::duplicate(
                AttributeView::at(tokens, AttributeView::at(tokens, pos)->Ok_0.1)->Ok_0.0.span(),
                AttributeView::at(tokens, pos)->Ok_0.0.span(),
            ),
        ),
{
    let (first, next) = AttributeView::at(tokens, pos)->Ok_0;
    let empty = Seq::<AttributeView>::empty();
    assert(earlier(empty, first) is None);
    let acc = empty.push(first);
    assert(attributes_from(tokens, pos, empty) == attributes_from(tokens, next, acc));
    assert(acc[0] == first);
    lemma_duplicate_is_refused(tokens, next, acc, 0);
}

/// The first `count` attributes that stand in a row from `pos` on, read one
/// after the other without comparing them, with the position behind them;
/// `None` where the list ends or an attribute cannot be read before that.
pub open spec fn in_a_row(tokens: Seq<Token>, pos: int, count: nat) -> Option<
    (Seq<AttributeView>, int),
>
    decreases count,
{
    if count == 0 {
        Some((Seq::empty(), pos))
    } else if at_end(tokens, pos) || AttributeView::at(tokens, pos) is Err {
        None
    } else {
        match in_a_row(tokens, AttributeView::at(tokens, pos)->Ok_0.1, (count - 1) as nat) {
            Some((rest, end)) => Some((seq![AttributeView::at(tokens, pos)->Ok_0.0] + rest, end)),
            None => None,
        }
    }
}

/// Attributes in a row of which no two are the same, and none the same as
/// one read before, are all added, in the order in which they stand.
pub proof fn lemma_different_are_added(
    tokens: Seq<Token>,
    pos: int,
    acc: Seq<AttributeView>,
    count: nat,
)
    requires
        in_a_row(tokens, pos, count) is Some,
        unique(acc + in_a_row(tokens, pos, count)->Some_0.0),
    ensures
        attributes_from(tokens, pos, acc) == attributes_from(
            tokens,
            in_a_row(tokens, pos, count)->Some_0.1,
            acc + in_a_row(tokens, pos, count)->Some_0.0,
        ),
    decreases count,
{
    let (row, end) = in_a_row(tokens, pos, count)->Some_0;
    if count == 0 {
        assert(acc + row =~= acc);
    } else {
        let (first, next) = AttributeView::at(tokens, pos)->Ok_0;
        let rest = in_a_row(tokens, next, (count - 1) as nat)->Some_0.0;
        let all = acc + row;
        assert(row =~= seq![first] + rest);
        assert(all[acc.len() as int] == first);
        assert(earlier(acc, first) is None) by {
            if exists|i: int| first_same(acc, first, i) {
                let i = choose|i: int| first_same(acc, first, i);
                assert(all[i] == acc[i]);
                assert(all[i].same(all[acc.len() as int]));
            }
        }
        assert(acc.push(first) + rest =~= all);
        lemma_different_are_added(tokens, next, acc.push(first), (count - 1) as nat);
    }
}

/// Any number of attributes of which no two are the same, and behind them the
/// end of the list: all of them are read, in order.
pub proof fn lemma_all_different_are_kept(tokens: Seq<Token>, pos: int, count: nat)
    requires
        in_a_row(tokens, pos, count) is Some,
        unique(in_a_row(tokens, pos, count)->Some_0.0),
        at_end(tokens, in_a_row(tokens, pos, count)->Some_0.1),
    ensures
        attributes_from(tokens, pos, Seq::empty()) == Ok::<_, ParseError>(
            in_a_row(tokens, pos, count)->Some_0,
        ),
{
    let row = in_a_row(tokens, pos, count)->Some_0.0;
    assert(Seq::<AttributeView>::empty() + row =~= row);
    lemma_different_are_added(tokens, pos, Seq::empty(), count);
}

/// Wherever in a list the first repetition stands: any number of attributes
/// of which no two are the same, and behind them one that is the same as the
/// `i`-th of them, are refused with the duplicate error, which points at the
/// repetition first and at the `i`-th attribute second.
pub proof fn lemma_repetition_is_refused(tokens: Seq<Token>, pos: int, count: nat, i: int)
    requires
        in_a_row(tokens, pos, count) is Some,
        unique(in_a_row(tokens, pos, count)->Some_0.0),
        !at_end(tokens, in_a_row(tokens, pos, count)->Some_0.1),
        AttributeView::at(tokens, in_a_row(tokens, pos, count)->Some_0.1) is Ok,
        0 <= i < count,
        in_a_row(tokens, pos, count)->Some_0.0[i].same(
            AttributeView::at(tokens, in_a_row(tokens, pos, count)->Some_0.1)->Ok_0.0,
        ),
    ensures
        attributes_from(tokens, pos, Seq::empty()) == Err::<(Seq<AttributeView>, int), _>(
            ParseError::duplicate(
                AttributeView::at(tokens, in_a_row(tokens, pos, count)->Some_0.1)->Ok_0.0.span(),
                in_a_row(tokens, pos, count)->Some_0.0[i].span(),
            ),
        ),
{
    let (row, end) = in_a_row(tokens, pos, count)->Some_0;
    lemma_row_length(tokens, pos, count);
    assert(Seq::<AttributeView>::empty() + row =~= row);
    lemma_different_are_added(tokens, pos, Seq::empty(), count);
    lemma_duplicate_is_refused(tokens, end, row, i);
}

/// A row of `count` attributes has `count` members.
pub proof fn lemma_row_length(tokens: Seq<Token>, pos: int, count: nat)
    requires
        in_a_row(tokens, pos, count) is Some,
    ensures
        in_a_row(tokens, pos, count)->Some_0.0.len() == count,
    decreases count,
{
    if count > 0 {
        lemma_row_length(tokens, AttributeView::at(tokens, pos)->Ok_0.1, (count - 1) as nat);
    }
}

/// Two modifiers of different names in a row are both kept, in the order in
/// which they stand.
pub proof fn lemma_two_modifiers_are_kept(tokens: Seq<Token>, pos: int)
    requires
        !at_end(tokens, pos),
        AttributeView::at(tokens, pos) is Ok,
        AttributeView::at(tokens, pos)->Ok_0.0 is Modifier,
        !at_end(tokens, AttributeView::at(tokens, pos)->Ok_0.1),
        AttributeView::at(tokens, AttributeView::at(tokens, pos)->Ok_0.1) is Ok,
        AttributeView::at(tokens, AttributeView::at(tokens, pos)->Ok_0.1)->Ok_0.0 is Modifier,
        AttributeView::at(tokens, pos)->Ok_0.0->Modifier_0.name != AttributeView::at(
            tokens,
            AttributeView::at(tokens, pos)->Ok_0.1,
        )->Ok_0.0->Modifier_0.name,
        at_end(tokens, AttributeView::at(tokens, AttributeView::at(tokens, pos)->Ok_0.1)->Ok_0.1),
    ensures
        attributes_from(tokens, pos, Seq::empty()) == Ok::<_, ParseError>(
            (
                seq![
                    AttributeView::at(tokens, pos)->Ok_0.0,
                    AttributeView::at(tokens, AttributeView::at(tokens, pos)->Ok_0.1)->Ok_0.0,
                ],
                AttributeView::at(tokens, AttributeView::at(tokens, pos)->Ok_0.1)->Ok_0.1,
            ),
        ),
{
    let (first, next) = AttributeView::at(tokens, pos)->Ok_0;
    let (second, end) = AttributeView::at(tokens, next)->Ok_0;
    let empty = Seq::<AttributeView>::empty();
    assert(earlier(empty, first) is None);
    let one = empty.push(first);
    assert(attributes_from(tokens, pos, empty) == attributes_from(tokens, next, one));
    assert(earlier(one, second) is None) by {
        if exists|i: int| first_same(one, second, i) {
            let i = choose|i: int| first_same(one, second, i);
            assert(one[i] == first);
        }
    }
    let two = one.push(second);
    assert(attributes_from(tokens, next, one) == attributes_from(tokens, end, two));
    assert(two =~= seq![first, second]);
}

/// Reading only ever adds: what was read before stays, in place, in every
/// result.
pub proof fn lemma_reading_keeps_earlier(tokens: Seq<Token>, pos: int, acc: Seq<AttributeView>)
    requires
        attributes_from(tokens, pos, acc) is Ok,
    ensures
        acc.is_prefix_of(attributes_from(tokens, pos, acc)->Ok_0.0),
    decreases tokens.len() - pos,
{
    if !at_end(tokens, pos) {
        lemma_attribute_advances(tokens, pos);
        let (attr, next) = AttributeView::at(tokens, pos)->Ok_0;
        lemma_reading_keeps_earlier(tokens, next, acc.push(attr));
        let all = attributes_from(tokens, pos, acc)->Ok_0.0;
        assert(acc.push(attr).is_prefix_of(all));
        assert(acc =~= acc.push(attr).subrange(0, acc.len() as int));
        assert(acc =~= all.subrange(0, acc.len() as int));
    }
}

/// Whatever is read, no two attributes of the result are the same.
pub proof fn lemma_result_is_unique(tokens: Seq<Token>, pos: int, acc: Seq<AttributeView>)
    requires
        unique(acc),
        attributes_from(tokens, pos, acc) is Ok,
    ensures
        unique(attributes_from(tokens, pos, acc)->Ok_0.0),
    decreases tokens.len() - pos,
{
    if !at_end(tokens, pos) {
        lemma_attribute_advances(tokens, pos);
        let (attr, next) = AttributeView::at(tokens, pos)->Ok_0;
        let more = acc.push(attr);
        assert(unique(more)) by {
            assert forall|i: int, j: int| 0 <= i < j < more.len() implies !(#[trigger] more[i]).same(
                #[trigger] more[j],
            ) by {
                if j == acc.len() && acc[i].same(attr) {
                    lemma_first_same_exists(acc, attr, i);
                }
            }
        }
        lemma_result_is_unique(tokens, next, more);
    }
}

/// Where some member is the same as `attr`, a first such member exists.
pub proof fn lemma_first_same_exists(acc: Seq<AttributeView>, attr: AttributeView, i: int)
    requires
        0 <= i < acc.len(),
        acc[i].same(attr),
    ensures
        exists|k: int| first_same(acc, attr, k),
    decreases i,
{
    if exists|j: int| 0 <= j < i && (#[trigger] acc[j]).same(attr) {
        let j = choose|j: int| 0 <= j < i && (#[trigger] acc[j]).same(attr);
        lemma_first_same_exists(acc, attr, j);
    } else {
        assert(first_same(acc, attr, i));
    }
}

/// The words that stand for something else than the name of a modifier.
pub open spec fn reserved(word: Seq<char>) -> bool {
    ||| word == "external"@
    ||| word == "public"@
    ||| word == "internal"@
    ||| word == "private"@
    ||| word == "pure"@
    ||| word == "view"@
    ||| word == "payable"@
    ||| word == "virtual"@
    ||| word == "override"@
    ||| word == "immutable"@
    ||| word == "returns"@
}

/// The length and the first two characters of a word.
pub open spec fn stamp(word: Seq<char>) -> (nat, char, char) {
    (word.len(), word[0], word[1])
}

/// The reserved words differ from one another: by their length or by one of
/// their first two characters.
pub proof fn lemma_reserved_words_differ()
    ensures
        stamp("external"@) == (8nat, 'e', 'x'),
        stamp("public"@) == (6nat, 'p', 'u'),
        stamp("internal"@) == (8nat, 'i', 'n'),
        stamp("private"@) == (7nat, 'p', 'r'),
        stamp("pure"@) == (4nat, 'p', 'u'),
        stamp("view"@) == (4nat, 'v', 'i'),
        stamp("payable"@) == (7nat, 'p', 'a'),
        stamp("virtual"@) == (7nat, 'v', 'i'),
        stamp("override"@) == (8nat, 'o', 'v'),
        stamp("immutable"@) == (9nat, 'i', 'm'),
        stamp("returns"@) == (7nat, 'r', 'e'),
{
    reveal_strlit("external");
    reveal_strlit("public");
    reveal_strlit("internal");
    reveal_strlit("private");
    reveal_strlit("pure");
    reveal_strlit("view");
    reveal_strlit("payable");
    reveal_strlit("virtual");
    reveal_strlit("override");
    reveal_strlit("immutable");
    reveal_strlit("returns");
}

/// The tokens from `pos` on spell `path`: its segments in turn, with a `.`
/// between neighbours.
pub open spec fn spells_path(tokens: Seq<Token>, pos: int, path: Seq<Seq<char>>) -> bool {
    &&& path.len() >= 1
    &&& 0 <= pos
    &&& pos + 2 * path.len() - 1 <= tokens.len()
    &&& forall|k: int| 0 <= k < path.len() ==> word_at(tokens, pos + 2 * k, #[trigger] path[k])
    &&& forall|k: int| 0 <= k < path.len() - 1 ==> #[trigger] punct_at(tokens, pos + 2 * k + 1, "."@)
}

/// A path that is spelled out is read back as it is, provided that no `.`
/// with an identifier behind it follows.
pub proof fn lemma_path_round_trip(tokens: Seq<Token>, pos: int, path: Seq<Seq<char>>)
    requires
        spells_path(tokens, pos, path),
        !(punct_at(tokens, pos + 2 * path.len() - 1, "."@) && ident_at(
            tokens,
            pos + 2 * path.len(),
        )),
    ensures
        path_segments(tokens, pos) == path,
    decreases path.len(),
{
    assert(word_at(tokens, pos + 2 * 0, path[0]));
    if path.len() == 1 {
        assert(path_segments(tokens, pos) =~= path);
    } else {
        let rest = path.drop_first();
        assert(punct_at(tokens, pos + 2 * 0 + 1, "."@));
        assert(word_at(tokens, pos + 2 * 1, path[1]));
        assert(spells_path(tokens, pos + 2, rest)) by {
            assert forall|k: int| 0 <= k < rest.len() implies word_at(
                tokens,
                pos + 2 + 2 * k,
                #[trigger] rest[k],
            ) by {
                assert(word_at(tokens, pos + 2 * (k + 1), path[k + 1]));
            }
            assert forall|k: int| 0 <= k < rest.len() - 1 implies #[trigger] punct_at(
                tokens,
                pos + 2 + 2 * k + 1,
                "."@,
            ) by {
                assert(punct_at(tokens, pos + 2 * (k + 1) + 1, "."@));
            }
        }
        lemma_path_round_trip(tokens, pos + 2, rest);
        assert(path_segments(tokens, pos) =~= seq![path[0]] + rest);
        assert(seq![path[0]] + rest =~= path);
    }
}

/// The tokens are exactly one way of writing `attr`: its keyword; or
/// `override` and, where it has targets, one parenthesized group that holds a
/// list of paths; or the name of the modifier and, where it has arguments, the
/// group that holds them.
pub open spec fn spells(tokens: Seq<Token>, attr: AttributeView) -> bool {
    match attr {
        AttributeView::Visibility(v) => tokens.len() == 1 && word_at(tokens, 0, v.keyword()),
        AttributeView::Mutability(m) => tokens.len() == 1 && word_at(tokens, 0, m.keyword()),
        AttributeView::Virtual(_) => tokens.len() == 1 && word_at(tokens, 0, "virtual"@),
        AttributeView::Immutable(_) => tokens.len() == 1 && word_at(tokens, 0, "immutable"@),
        AttributeView::Override(o) => word_at(tokens, 0, "override"@) && match o.paths {
            None => tokens.len() == 1,
            Some(_) => {
                &&& tokens.len() == 2
                &&& kind_at(tokens, 1, TokenKind::Paren)
                &&& lexed(tokens[1].text@) is Some
                &&& path_list(lexed(tokens[1].text@)->Some_0, 0) is Ok
            },
        },
        AttributeView::Modifier(m) => spells_path(tokens, 0, m.name) && match m.arguments {
            None => tokens.len() == 2 * m.name.len() - 1,
            Some(arguments) => {
                &&& tokens.len() == 2 * m.name.len()
                &&& kind_at(tokens, 2 * m.name.len() - 1, TokenKind::Paren)
                &&& tokens[2 * m.name.len() - 1].text@ == arguments
            },
        },
    }
}

/// The name of a modifier that was read starts with a word that is not reserved.
pub proof fn lemma_modifier_name_is_free(tokens: Seq<Token>, pos: int)
    requires
        AttributeView::at(tokens, pos) is Ok,
        AttributeView::at(tokens, pos)->Ok_0.0 is Modifier,
    ensures
        AttributeView::at(tokens, pos)->Ok_0.0->Modifier_0.name.len() >= 1,
        !reserved(AttributeView::at(tokens, pos)->Ok_0.0->Modifier_0.name[0]),
{
    lemma_path_bounds(tokens, pos);
}

/// Writing an attribute out and reading it again gives an attribute that is
/// the same as the first, and uses up what was written. This holds of every
/// attribute whose name, if it is a modifier, starts with a word that is not
/// reserved: so of every attribute that was read.
pub proof fn lemma_round_trip(tokens: Seq<Token>, attr: AttributeView)
    requires
        spells(tokens, attr),
        attr matches AttributeView::Modifier(m) ==> !reserved(m.name[0]),
    ensures
        AttributeView::at(tokens, 0) is Ok,
        AttributeView::at(tokens, 0)->Ok_0.0.same(attr),
        AttributeView::at(tokens, 0)->Ok_0.1 == tokens.len(),
        !(attr is Override) ==> AttributeView::at(tokens, 0)->Ok_0.0.with_span(attr.span()) == attr,
{
    lemma_reserved_words_differ();
    if let AttributeView::Modifier(m) = attr {
        assert(word_at(tokens, 0int + 2 * 0, m.name[0]));
        lemma_path_round_trip(tokens, 0, m.name);
    }
}

} // verus!
