//! The per-document variable extractor: scans the lines of one document,
//! takes the key of every declaration line, and pairs a declaration with
//! the annotation comment directly before it.

use vstd::prelude::*;

use crate::strutil::{
    eq_idx, lemma_first_not_is, p_not_eq, spec_lines, spec_trim, split_lines, str_eq, trim,
};

use super::typehint_parser::{spec_hint_opt, HintV, ParseTyeHint, TypeHint};

verus! {

/// A value tagged with the zero-based index of the line it came from.
pub type WithLineNumber<T> = (T, usize);

/// One declared variable: its key, and the type hint of the annotation
/// comment directly above its declaration, if there was one, together
/// with that comment's line index.
#[derive(Debug)]
pub struct Variable {
    pub type_hint: Option<WithLineNumber<TypeHint>>,
    pub key: String,
}

/// The mathematical value of a variable.
pub struct VarV {
    pub key: Seq<char>,
    pub type_hint: Option<(HintV, int)>,
}

impl View for Variable {
    type V = VarV;

    open spec fn view(&self) -> VarV {
        VarV {
            key: self.key@,
            type_hint: match self.type_hint {
                Some((h, l)) => Some((h@, l as int)),
                None => None,
            },
        }
    }
}

impl DeepView for Variable {
    type V = VarV;

    open spec fn deep_view(&self) -> VarV {
        self.view()
    }
}

impl Clone for Variable {
    /// A clone denotes the same variable.
    fn clone(&self) -> (r: Self)
        ensures
            r@ == self@,
    {
        Variable {
            key: self.key.clone(),
            type_hint: match &self.type_hint {
                Some((th, l)) => Some((th.clone(), *l)),
                None => None,
            },
        }
    }
}

/// Whether a key belongs to the public group: it carries the
/// `NEXT_PUBLIC_` prefix.
pub open spec fn spec_is_public(key: Seq<char>) -> bool {
    key.len() >= "NEXT_PUBLIC_"@.len() && key.subrange(0, "NEXT_PUBLIC_"@.len() as int)
        == "NEXT_PUBLIC_"@
}

impl Variable {
    /// Whether this variable may be exposed to the client side.
    pub fn is_public(&self) -> (r: bool)
        ensures
            r == spec_is_public(self.key@),
    {
        proof {
            reveal_strlit("NEXT_PUBLIC_");
        }
        let key = self.key.as_str();
        if key.unicode_len() < 12 {
            return false;
        }
        str_eq(key.substring_char(0, 12), "NEXT_PUBLIC_")
    }
}

/// A comment line: its first character is `'#'`.
pub open spec fn is_comment_line(l: Seq<char>) -> bool {
    l.len() > 0 && l[0] == '#'
}

/// The key a line declares: what stands before its first `'='` (the whole
/// line when it has none), trimmed of surrounding whitespace.
pub open spec fn line_ident(l: Seq<char>) -> Seq<char> {
    spec_trim(l.subrange(0, eq_idx(l)))
}

/// A declaration line: not a comment, and its key is non-empty.
pub open spec fn is_decl_line(l: Seq<char>) -> bool {
    !is_comment_line(l) && line_ident(l).len() > 0
}

/// The key a line declares.
fn line_ident_exec<'a>(line: &'a str) -> (r: &'a str)
    ensures
        r@ == line_ident(line@),
{
    let n = line.unicode_len();
    let mut k: usize = 0;
    while k < n
        invariant
            n == line@.len(),
            k <= n,
            forall|j: int| 0 <= j < k ==> line@[j] != '=',
        ensures
            k <= n,
            forall|j: int| 0 <= j < k ==> line@[j] != '=',
            k == n || line@[k as int] == '=',
        decreases n - k,
    {
        if line.get_char(k) == '=' {
            break ;
        }
        k += 1;
    }
    proof {
        lemma_first_not_is(line@, 0, k as int, p_not_eq());
    }
    trim(line.substring_char(0, k))
}

/// Whether a line is a comment.
fn is_comment_exec(line: &str) -> (r: bool)
    ensures
        r == is_comment_line(line@),
{
    line.unicode_len() > 0 && line.get_char(0) == '#'
}

/// The keys declared by a sequence of lines, in order.
pub open spec fn spec_keys(lines: Seq<Seq<char>>, n: int) -> Seq<Seq<char>>
    decreases n,
{
    if n <= 0 {
        Seq::empty()
    } else {
        spec_keys(lines, n - 1) + if is_decl_line(lines[n - 1]) {
            seq![line_ident(lines[n - 1])]
        } else {
            Seq::empty()
        }
    }
}

/// The keys a document declares, in source order: one for every line that
/// is not a comment and whose text before the first `'='` trims to a
/// non-empty key.
pub fn parse_variables<'a>(source: &'a str) -> (r: Vec<&'a str>)
    ensures
        r.deep_view() == spec_keys(spec_lines(source@), spec_lines(source@).len() as int),
{
    let lines = split_lines(source);
    let n = lines.len();
    let mut out: Vec<&'a str> = Vec::new();
    let mut i: usize = 0;
    while i < n
        invariant
            n == lines@.len(),
            lines.deep_view() == spec_lines(source@),
            i <= n,
            out.deep_view() == spec_keys(spec_lines(source@), i as int),
        decreases n - i,
    {
        let line = lines[i];
        proof {
            assert(line@ == spec_lines(source@)[i as int]);
        }
        if !is_comment_exec(line) {
            let ident = line_ident_exec(line);
            if ident.unicode_len() > 0 {
                let ghost old_dv = out.deep_view();
                out.push(ident);
                proof {
                    assert(out.deep_view() =~= old_dv + seq![ident@]);
                }
            } else {
                proof {
                    assert(out.deep_view() + Seq::<Seq<char>>::empty() =~= out.deep_view());
                }
            }
        } else {
            proof {
                assert(out.deep_view() + Seq::<Seq<char>>::empty() =~= out.deep_view());
            }
        }
        i += 1;
    }
    out
}

/// One relevant line of a document: an annotation-comment candidate or a
/// declaration, with its line index.
enum Item<'source> {
    LineComment(&'source str, usize),
    Ident(&'source str, usize),
}

/// The mathematical value of a relevant line.
pub enum ItemV {
    LineComment(Seq<char>, int),
    Ident(Seq<char>, int),
}

impl<'source> View for Item<'source> {
    type V = ItemV;

    closed spec fn view(&self) -> ItemV {
        match self {
            Item::LineComment(s, l) => ItemV::LineComment(s@, *l as int),
            Item::Ident(s, l) => ItemV::Ident(s@, *l as int),
        }
    }
}

impl<'source> DeepView for Item<'source> {
    type V = ItemV;

    closed spec fn deep_view(&self) -> ItemV {
        self.view()
    }
}

/// The relevant lines among the first `n`: comment lines as comments,
/// declaration lines as their keys; other lines drop out.
pub open spec fn spec_items(lines: Seq<Seq<char>>, n: int) -> Seq<ItemV>
    decreases n,
{
    if n <= 0 {
        Seq::empty()
    } else {
        spec_items(lines, n - 1) + if is_comment_line(lines[n - 1]) {
            seq![ItemV::LineComment(lines[n - 1], n - 1)]
        } else if is_decl_line(lines[n - 1]) {
            seq![ItemV::Ident(line_ident(lines[n - 1]), n - 1)]
        } else {
            Seq::empty()
        }
    }
}

/// The hint of an annotation comment, tagged with its line index.
pub open spec fn spec_hint_at(c: Seq<char>, l: int) -> Option<(HintV, int)> {
    match spec_hint_opt(c) {
        Some(h) => Some((h, l)),
        None => None,
    }
}

/// The variables a stream of relevant lines declares. A declaration takes
/// its hint only from the comment standing directly before it in the
/// stream; of several comments in a row only the nearest one counts, and
/// a comment not followed by a declaration is dropped.
pub open spec fn spec_pair(items: Seq<ItemV>) -> Seq<VarV>
    decreases items.len(),
{
    if items.len() == 0 {
        Seq::empty()
    } else {
        match items[0] {
            ItemV::LineComment(c, l) => {
                if items.len() >= 2 && items[1] is Ident {
                    seq![VarV { key: items[1]->Ident_0, type_hint: spec_hint_at(c, l) }]
                        + spec_pair(items.skip(2))
                } else {
                    spec_pair(items.skip(1))
                }
            },
            ItemV::Ident(k, _l) => seq![VarV { key: k, type_hint: None }] + spec_pair(
                items.skip(1),
            ),
        }
    }
}

/// The line index an item came from.
pub open spec fn item_line(it: ItemV) -> int {
    match it {
        ItemV::LineComment(_, l) => l,
        ItemV::Ident(_, l) => l,
    }
}

/// The relevant lines keep their order: their line indices are within
/// the first `n` lines and strictly increase.
pub proof fn lemma_items_bounds(lines: Seq<Seq<char>>, n: int)
    requires
        0 <= n <= lines.len(),
    ensures
        forall|k: int|
            0 <= k < spec_items(lines, n).len() ==> 0 <= item_line(#[trigger] spec_items(lines, n)[k])
                < n,
        forall|k1: int, k2: int|
            0 <= k1 < k2 < spec_items(lines, n).len() ==> item_line(
                #[trigger] spec_items(lines, n)[k1],
            ) < item_line(#[trigger] spec_items(lines, n)[k2]),
    decreases n,
{
    if n > 0 {
        lemma_items_bounds(lines, n - 1);
        let prev = spec_items(lines, n - 1);
        let cur = spec_items(lines, n);
        assert forall|k: int| 0 <= k < cur.len() implies 0 <= item_line(#[trigger] cur[k])
            < n by {
            if k < prev.len() {
                assert(cur[k] == prev[k]);
            }
        }
        assert forall|k1: int, k2: int|
            0 <= k1 < k2 < cur.len() implies item_line(#[trigger] cur[k1]) < item_line(
            #[trigger] cur[k2],
        ) by {
            if k2 < prev.len() {
                assert(cur[k1] == prev[k1]);
                assert(cur[k2] == prev[k2]);
            } else {
                assert(cur[k1] == prev[k1]);
                assert(item_line(cur[k1]) < n - 1);
                assert(item_line(cur[k2]) == n - 1);
            }
        }
    }
}

/// Every hint the pairing yields cites a comment line that lies, with
/// the declaration line after it, within the first `bound` lines.
pub proof fn lemma_pair_hint_lines(items: Seq<ItemV>, bound: int)
    requires
        forall|k: int| 0 <= k < items.len() ==> 0 <= item_line(#[trigger] items[k]) < bound,
        forall|k1: int, k2: int|
            0 <= k1 < k2 < items.len() ==> item_line(#[trigger] items[k1]) < item_line(
                #[trigger] items[k2],
            ),
    ensures
        forall|j: int|
            0 <= j < spec_pair(items).len() && (#[trigger] spec_pair(items)[j]).type_hint is Some
                ==> 0 <= (spec_pair(items)[j].type_hint->0).1
                && (spec_pair(items)[j].type_hint->0).1 + 1 < bound,
    decreases items.len(),
{
    if items.len() > 0 {
        match items[0] {
            ItemV::LineComment(c, l) => {
                if items.len() >= 2 && items[1] is Ident {
                    let rest = items.skip(2);
                    assert forall|k: int| 0 <= k < rest.len() implies 0 <= item_line(
                        #[trigger] rest[k],
                    ) < bound by {
                        assert(rest[k] == items[k + 2]);
                    }
                    assert forall|k1: int, k2: int|
                        0 <= k1 < k2 < rest.len() implies item_line(#[trigger] rest[k1])
                        < item_line(#[trigger] rest[k2]) by {
                        assert(rest[k1] == items[k1 + 2]);
                        assert(rest[k2] == items[k2 + 2]);
                    }
                    lemma_pair_hint_lines(rest, bound);
                    assert(item_line(items[0]) < item_line(items[1]));
                    assert(l + 1 < bound);
                    assert(spec_pair(items) == seq![
                        VarV { key: items[1]->Ident_0, type_hint: spec_hint_at(c, l) },
                    ] + spec_pair(rest));
                } else {
                    let rest = items.skip(1);
                    assert forall|k: int| 0 <= k < rest.len() implies 0 <= item_line(
                        #[trigger] rest[k],
                    ) < bound by {
                        assert(rest[k] == items[k + 1]);
                    }
                    assert forall|k1: int, k2: int|
                        0 <= k1 < k2 < rest.len() implies item_line(#[trigger] rest[k1])
                        < item_line(#[trigger] rest[k2]) by {
                        assert(rest[k1] == items[k1 + 1]);
                        assert(rest[k2] == items[k2 + 1]);
                    }
                    lemma_pair_hint_lines(rest, bound);
                }
            },
            ItemV::Ident(_k, _l) => {
                let rest = items.skip(1);
                assert forall|k: int| 0 <= k < rest.len() implies 0 <= item_line(
                    #[trigger] rest[k],
                ) < bound by {
                    assert(rest[k] == items[k + 1]);
                }
                assert forall|k1: int, k2: int|
                    0 <= k1 < k2 < rest.len() implies item_line(#[trigger] rest[k1]) < item_line(
                    #[trigger] rest[k2],
                ) by {
                    assert(rest[k1] == items[k1 + 1]);
                    assert(rest[k2] == items[k2 + 1]);
                }
                lemma_pair_hint_lines(rest, bound);
            },
        }
    }
}

/// Every hint an extracted variable carries cites a comment line whose
/// declaration line still lies within the document.
pub proof fn lemma_variables_citable(source: Seq<char>)
    ensures
        forall|j: int|
            0 <= j < spec_variables(source).len() && (#[trigger] spec_variables(
                source,
            )[j]).type_hint is Some ==> 0 <= (spec_variables(source)[j].type_hint->0).1
                && (spec_variables(source)[j].type_hint->0).1 + 1 < spec_lines(source).len(),
{
    let lines = spec_lines(source);
    let items = spec_items(lines, lines.len() as int);
    lemma_items_bounds(lines, lines.len() as int);
    lemma_pair_hint_lines(items, lines.len() as int);
}

/// The variables one document declares, in source order.
pub open spec fn spec_variables(source: Seq<char>) -> Seq<VarV> {
    spec_pair(spec_items(spec_lines(source), spec_lines(source).len() as int))
}

/// Extracts the variables one document declares, each with the hint of
/// the annotation comment directly above it, if that comment parses.
pub fn parse_variables_with_type_hints(source: &str) -> (r: Vec<Variable>)
    ensures
        r.deep_view() == spec_variables(source@),
{
    let lines = split_lines(source);
    let n = lines.len();
    let mut items: Vec<Item> = Vec::new();
    let mut i: usize = 0;
    while i < n
        invariant
            n == lines@.len(),
            lines.deep_view() == spec_lines(source@),
            i <= n,
            items.deep_view() == spec_items(spec_lines(source@), i as int),
        decreases n - i,
    {
        let line = lines[i];
        proof {
            assert(line@ == spec_lines(source@)[i as int]);
        }
        let ghost old_dv = items.deep_view();
        if is_comment_exec(line) {
            items.push(Item::LineComment(line, i));
            proof {
                assert(items.deep_view() =~= old_dv + seq![
                    ItemV::LineComment(line@, i as int),
                ]);
            }
        } else {
            let ident = line_ident_exec(line);
            if ident.unicode_len() > 0 {
                items.push(Item::Ident(ident, i));
                proof {
                    assert(items.deep_view() =~= old_dv + seq![
                        ItemV::Ident(ident@, i as int),
                    ]);
                }
            } else {
                proof {
                    assert(old_dv + Seq::<ItemV>::empty() =~= old_dv);
                }
            }
        }
        i += 1;
    }

    let ghost all = items.deep_view();
    let m = items.len();
    let mut vars: Vec<Variable> = Vec::new();
    let mut j: usize = 0;
    proof {
        assert(all.skip(0) =~= all);
        assert(vars.deep_view() + spec_pair(all) =~= spec_pair(all));
    }
    while j < m
        invariant
            m == items@.len(),
            items.deep_view() == all,
            j <= m,
            spec_pair(all) == vars.deep_view() + spec_pair(all.skip(j as int)),
        decreases m - j,
    {
        proof {
            assert(all.skip(j as int)[0] == items@[j as int]@);
        }
        match &items[j] {
            Item::LineComment(comment, l_num) => {
                let has_next_ident = j + 1 < m && matches!(&items[j + 1], Item::Ident(..));
                if has_next_ident {
                    proof {
                        assert(all.skip(j as int)[1] == items@[j + 1]@);
                        assert(all.skip(j as int).skip(2) =~= all.skip(j as int + 2));
                    }
                    let key = match &items[j + 1] {
                        Item::Ident(k, _) => *k,
                        Item::LineComment(..) => "",
                    };
                    let hint = (*comment).into_type_hint();
                    let var = Variable {
                        type_hint: match hint {
                            Some(th) => Some((th, *l_num)),
                            None => None,
                        },
                        key: String::from_str(key),
                    };
                    let ghost old_vars = vars.deep_view();
                    let ghost var_v = var@;
                    vars.push(var);
                    proof {
                        assert(vars.deep_view() =~= old_vars + seq![var_v]);
                        assert((old_vars + seq![var_v]) + spec_pair(all.skip(j as int + 2))
                            =~= old_vars + (seq![var_v] + spec_pair(all.skip(j as int + 2))));
                    }
                    j += 2;
                } else {
                    proof {
                        assert(all.skip(j as int).skip(1) =~= all.skip(j as int + 1));
                    }
                    j += 1;
                }
            },
            Item::Ident(k, _l) => {
                proof {
                    assert(all.skip(j as int).skip(1) =~= all.skip(j as int + 1));
                }
                let var = Variable { type_hint: None, key: String::from_str(*k) };
                let ghost old_vars = vars.deep_view();
                let ghost var_v = var@;
                vars.push(var);
                proof {
                    assert(vars.deep_view() =~= old_vars + seq![var_v]);
                    assert((old_vars + seq![var_v]) + spec_pair(all.skip(j as int + 1))
                        =~= old_vars + (seq![var_v] + spec_pair(all.skip(j as int + 1))));
                }
                j += 1;
            },
        }
    }
    proof {
        assert(all.skip(m as int) =~= Seq::<ItemV>::empty());
        assert(vars.deep_view() + Seq::<VarV>::empty() =~= vars.deep_view());
    }
    vars
}

} // verus!

