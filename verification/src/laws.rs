//! The library's cross-cutting laws, stated and proved once: what the
//! parser does on the canonical annotation forms, how the merge treats
//! agreeing, missing and clashing hints, and that the rendered outputs
//! depend only on what the documents declare.

use vstd::prelude::*;

use crate::dotenv::typehint_parser::{
    spec_skip_pipes, spec_union_tail, unquote,
    spec_parse_hint, spec_token_at, HintV, PErrV, TokenKind,
};
use crate::dotenv::parse::VarV;
use crate::dotenv::zod::{
    spec_merge, spec_merge_step, spec_merge_vars, spec_validator, EntryV, MetaV, ParseErrorV,
    ThAtV,
};
use crate::dotenv::{
    key_lb, key_lb_from, spec_decls_output, spec_doc_keys, spec_keyset, spec_keyset_add,
    spec_keyset_docs, spec_keyset_insert,
};
use crate::strutil::{char_seq_lt, first_not, lemma_char_seq_lt_total};

verus! {

/// The canonical primitive annotation comments parse to their matching
/// primitive hints, and the validator text a hint renders to depends on
/// the hint alone, not on where it was written.
pub proof fn lemma_primitive_annotations()
    ensures
        spec_parse_hint("# @type string"@) == Ok::<HintV, PErrV>(HintV::String),
        spec_parse_hint("# @type number"@) == Ok::<HintV, PErrV>(HintV::Number),
        spec_parse_hint("# @type boolean"@) == Ok::<HintV, PErrV>(HintV::Boolean),
        forall|h: HintV, l1: int, l2: int|
            #[trigger] spec_validator(Some((h, l1))) == #[trigger] spec_validator(Some((h, l2))),
{
    reveal_with_fuel(first_not, 20);
    reveal_strlit("# @type string");
    reveal_strlit("# @type number");
    reveal_strlit("# @type boolean");
    reveal_strlit("@type");
    reveal_strlit("string");
    reveal_strlit("number");
    reveal_strlit("boolean");

    let s1 = "# @type string"@;
    assert(s1.subrange(2, 7) =~= "@type"@);
    assert(s1.subrange(8, 14) =~= "string"@);
    assert(spec_token_at(s1, 0).kind == TokenKind::Pound);
    assert(spec_token_at(s1, 1).kind == TokenKind::Keyword);
    assert(spec_token_at(s1, 8).kind == TokenKind::StringType);
    assert(spec_parse_hint(s1) == Ok::<HintV, PErrV>(HintV::String));

    let s2 = "# @type number"@;
    assert(s2.subrange(2, 7) =~= "@type"@);
    assert(s2.subrange(8, 14) =~= "number"@);
    assert(s2.subrange(8, 14) != "string"@) by {
        assert(s2.subrange(8, 14)[0] == 'n');
        assert("string"@[0] == 's');
    }
    assert(spec_token_at(s2, 0).kind == TokenKind::Pound);
    assert(spec_token_at(s2, 1).kind == TokenKind::Keyword);
    assert(spec_token_at(s2, 8).kind == TokenKind::NumberType);
    assert(spec_parse_hint(s2) == Ok::<HintV, PErrV>(HintV::Number));

    let s3 = "# @type boolean"@;
    assert(s3.subrange(2, 7) =~= "@type"@);
    assert(s3.subrange(8, 15) =~= "boolean"@);
    assert(s3.subrange(8, 15) != "string"@) by {
        assert(s3.subrange(8, 15).len() == 7);
        assert("string"@.len() == 6);
    }
    assert(s3.subrange(8, 15) != "number"@) by {
        assert(s3.subrange(8, 15).len() == 7);
        assert("number"@.len() == 6);
    }
    assert(spec_token_at(s3, 0).kind == TokenKind::Pound);
    assert(spec_token_at(s3, 1).kind == TokenKind::Keyword);
    assert(spec_token_at(s3, 8).kind == TokenKind::BooleanType);
    assert(spec_parse_hint(s3) == Ok::<HintV, PErrV>(HintV::Boolean));
}

/// Parsing `@type 'a' | 'b'` yields the two literals in source order.
#[verifier::rlimit(100)]
proof fn lemma_union_plain()
    ensures
        spec_parse_hint("@type 'a' | 'b'"@) == Ok::<HintV, PErrV>(
            HintV::Union(seq![seq!['a'], seq!['b']]),
        ),
{
    reveal_with_fuel(first_not, 20);
    reveal_strlit("@type 'a' | 'b'");
    reveal_strlit("@type");

    let s = "@type 'a' | 'b'"@;
    assert(s.subrange(0, 5) =~= "@type"@);
    assert(spec_token_at(s, 0).kind == TokenKind::Keyword && spec_token_at(s, 0).end == 6);
    assert(spec_token_at(s, 6).kind == TokenKind::StringLiteral && spec_token_at(s, 6).end
        == 10);
    assert(unquote(spec_token_at(s, 6).text) =~= seq!['a']);
    assert(spec_token_at(s, 10).kind == TokenKind::Pipe && spec_token_at(s, 10).end == 11);
    assert(spec_token_at(s, 11).kind == TokenKind::StringLiteral && spec_token_at(s, 11).end
        == 15);
    assert(unquote(spec_token_at(s, 11).text) =~= seq!['b']);
    assert(spec_token_at(s, 15).kind == TokenKind::Eof);
    assert(spec_skip_pipes(s, 11) == 11);
    assert(spec_skip_pipes(s, 10) == 11);
    assert(spec_union_tail(s, 15, seq![seq!['a'], seq!['b']]) == seq![seq!['a'], seq!['b']]);
    assert(spec_union_tail(s, 10, seq![seq!['a']]) == seq![seq!['a'], seq!['b']]) by {
        assert(seq![seq!['a']].push(unquote(spec_token_at(s, 11).text)) =~= seq![
            seq!['a'],
            seq!['b'],
        ]);
    }
    assert(seq![unquote(spec_token_at(s, 6).text)].push(unquote(spec_token_at(s, 11).text))
        =~= seq![seq!['a'], seq!['b']]);
    assert(spec_parse_hint(s) == Ok::<HintV, PErrV>(HintV::Union(seq![seq!['a'], seq!['b']])));
}

/// A doubled separator collapses to one.
#[verifier::rlimit(100)]
proof fn lemma_union_doubled()
    ensures
        spec_parse_hint("@type 'a' || 'b'"@) == Ok::<HintV, PErrV>(
            HintV::Union(seq![seq!['a'], seq!['b']]),
        ),
{
    reveal_with_fuel(first_not, 20);
    reveal_strlit("@type 'a' || 'b'");
    reveal_strlit("@type");

    let t = "@type 'a' || 'b'"@;
    assert(t.subrange(0, 5) =~= "@type"@);
    assert(spec_token_at(t, 0).kind == TokenKind::Keyword && spec_token_at(t, 0).end == 6);
    assert(spec_token_at(t, 6).kind == TokenKind::StringLiteral && spec_token_at(t, 6).end
        == 10);
    assert(unquote(spec_token_at(t, 6).text) =~= seq!['a']);
    assert(spec_token_at(t, 10).kind == TokenKind::Pipe && spec_token_at(t, 10).end == 11);
    assert(spec_token_at(t, 11).kind == TokenKind::Pipe && spec_token_at(t, 11).end == 12);
    assert(spec_token_at(t, 12).kind == TokenKind::StringLiteral && spec_token_at(t, 12).end
        == 16);
    assert(unquote(spec_token_at(t, 12).text) =~= seq!['b']);
    assert(spec_token_at(t, 16).kind == TokenKind::Eof);
    assert(spec_skip_pipes(t, 12) == 12);
    assert(spec_skip_pipes(t, 11) == 12);
    assert(spec_skip_pipes(t, 10) == 12);
    assert(spec_union_tail(t, 16, seq![seq!['a'], seq!['b']]) == seq![seq!['a'], seq!['b']]);
    assert(spec_union_tail(t, 10, seq![seq!['a']]) == seq![seq!['a'], seq!['b']]) by {
        assert(seq![seq!['a']].push(unquote(spec_token_at(t, 12).text)) =~= seq![
            seq!['a'],
            seq!['b'],
        ]);
    }
    assert(seq![unquote(spec_token_at(t, 6).text)].push(unquote(spec_token_at(t, 12).text))
        =~= seq![seq!['a'], seq!['b']]);
    assert(spec_parse_hint(t) == Ok::<HintV, PErrV>(HintV::Union(seq![seq!['a'], seq!['b']])));
}

/// A trailing separator is tolerated and adds nothing.
#[verifier::rlimit(100)]
proof fn lemma_union_trailing()
    ensures
        spec_parse_hint("@type 'a' | 'b' |"@) == Ok::<HintV, PErrV>(
            HintV::Union(seq![seq!['a'], seq!['b']]),
        ),
{
    reveal_with_fuel(first_not, 20);
    reveal_strlit("@type 'a' | 'b' |");
    reveal_strlit("@type");

    let u = "@type 'a' | 'b' |"@;
    assert(u.subrange(0, 5) =~= "@type"@);
    assert(spec_token_at(u, 0).kind == TokenKind::Keyword && spec_token_at(u, 0).end == 6);
    assert(spec_token_at(u, 6).kind == TokenKind::StringLiteral && spec_token_at(u, 6).end
        == 10);
    assert(unquote(spec_token_at(u, 6).text) =~= seq!['a']);
    assert(spec_token_at(u, 10).kind == TokenKind::Pipe && spec_token_at(u, 10).end == 11);
    assert(spec_token_at(u, 11).kind == TokenKind::StringLiteral && spec_token_at(u, 11).end
        == 16);
    assert(unquote(spec_token_at(u, 11).text) =~= seq!['b']);
    assert(spec_token_at(u, 16).kind == TokenKind::Pipe && spec_token_at(u, 16).end == 17);
    assert(spec_token_at(u, 17).kind == TokenKind::Eof);
    assert(spec_skip_pipes(u, 11) == 11);
    assert(spec_skip_pipes(u, 10) == 11);
    assert(spec_skip_pipes(u, 17) == 17);
    assert(spec_skip_pipes(u, 16) == 17);
    assert(spec_union_tail(u, 16, seq![seq!['a'], seq!['b']]) == seq![seq!['a'], seq!['b']]);
    assert(spec_union_tail(u, 10, seq![seq!['a']]) == seq![seq!['a'], seq!['b']]) by {
        assert(seq![seq!['a']].push(unquote(spec_token_at(u, 11).text)) =~= seq![
            seq!['a'],
            seq!['b'],
        ]);
    }
    assert(seq![unquote(spec_token_at(u, 6).text)].push(unquote(spec_token_at(u, 11).text))
        =~= seq![seq!['a'], seq!['b']]);
    assert(spec_parse_hint(u) == Ok::<HintV, PErrV>(HintV::Union(seq![seq!['a'], seq!['b']])));
}

/// Three literals come out in source order.
#[verifier::rlimit(100)]
proof fn lemma_union_three()
    ensures
        spec_parse_hint("@type 'a' | 'b' | 'c'"@) == Ok::<HintV, PErrV>(
            HintV::Union(seq![seq!['a'], seq!['b'], seq!['c']]),
        ),
{
    reveal_with_fuel(first_not, 25);
    reveal_strlit("@type 'a' | 'b' | 'c'");
    reveal_strlit("@type");

    let w = "@type 'a' | 'b' | 'c'"@;
    assert(w.subrange(0, 5) =~= "@type"@);
    assert(spec_token_at(w, 0).kind == TokenKind::Keyword && spec_token_at(w, 0).end == 6);
    assert(spec_token_at(w, 6).kind == TokenKind::StringLiteral && spec_token_at(w, 6).end
        == 10);
    assert(unquote(spec_token_at(w, 6).text) =~= seq!['a']);
    assert(spec_token_at(w, 10).kind == TokenKind::Pipe && spec_token_at(w, 10).end == 11);
    assert(spec_token_at(w, 11).kind == TokenKind::StringLiteral && spec_token_at(w, 11).end
        == 16);
    assert(unquote(spec_token_at(w, 11).text) =~= seq!['b']);
    assert(spec_token_at(w, 16).kind == TokenKind::Pipe && spec_token_at(w, 16).end == 17);
    assert(spec_token_at(w, 17).kind == TokenKind::StringLiteral && spec_token_at(w, 17).end
        == 21);
    assert(unquote(spec_token_at(w, 17).text) =~= seq!['c']);
    assert(spec_token_at(w, 21).kind == TokenKind::Eof);
    assert(spec_skip_pipes(w, 11) == 11);
    assert(spec_skip_pipes(w, 10) == 11);
    assert(spec_skip_pipes(w, 17) == 17);
    assert(spec_skip_pipes(w, 16) == 17);
    assert(spec_union_tail(w, 21, seq![seq!['a'], seq!['b'], seq!['c']]) == seq![
        seq!['a'],
        seq!['b'],
        seq!['c'],
    ]);
    assert(spec_union_tail(w, 16, seq![seq!['a'], seq!['b']]) == seq![
        seq!['a'],
        seq!['b'],
        seq!['c'],
    ]) by {
        assert(seq![seq!['a'], seq!['b']].push(unquote(spec_token_at(w, 17).text)) =~= seq![
            seq!['a'],
            seq!['b'],
            seq!['c'],
        ]);
    }
    assert(spec_union_tail(w, 10, seq![seq!['a']]) == seq![
        seq!['a'],
        seq!['b'],
        seq!['c'],
    ]) by {
        assert(seq![seq!['a']].push(unquote(spec_token_at(w, 11).text)) =~= seq![
            seq!['a'],
            seq!['b'],
        ]);
    }
    assert(seq![unquote(spec_token_at(w, 6).text)].push(unquote(spec_token_at(w, 11).text))
        .push(unquote(spec_token_at(w, 17).text)) =~= seq![seq!['a'], seq!['b'], seq!['c']]);
    assert(spec_parse_hint(w) == Ok::<HintV, PErrV>(
        HintV::Union(seq![seq!['a'], seq!['b'], seq!['c']]),
    ));
}

/// A union annotation yields its literals in source order; a doubled
/// separator and a trailing separator are tolerated and change nothing.
pub proof fn lemma_union_annotations()
    ensures
        spec_parse_hint("@type 'a' | 'b' | 'c'"@) == Ok::<HintV, PErrV>(
            HintV::Union(seq![seq!['a'], seq!['b'], seq!['c']]),
        ),
        spec_parse_hint("@type 'a' | 'b'"@) == Ok::<HintV, PErrV>(
            HintV::Union(seq![seq!['a'], seq!['b']]),
        ),
        spec_parse_hint("@type 'a' || 'b'"@) == spec_parse_hint("@type 'a' | 'b'"@),
        spec_parse_hint("@type 'a' | 'b' |"@) == spec_parse_hint("@type 'a' | 'b'"@),
{
    lemma_union_plain();
    lemma_union_doubled();
    lemma_union_trailing();
    lemma_union_three();
}

/// Two documents declaring the same key with the same explicit hint
/// merge without conflict into exactly one entry for that key, which
/// carries that hint.
pub proof fn lemma_merge_agreeing_hints(
    k: Seq<char>,
    h: HintV,
    l1: int,
    l2: int,
    m1: MetaV,
    m2: MetaV,
)
    ensures
        ({
            let docs = seq![
                (seq![VarV { key: k, type_hint: Some((h, l1)) }], m1),
                (seq![VarV { key: k, type_hint: Some((h, l2)) }], m2),
            ];
            &&& spec_merge(docs) is Ok
            &&& spec_merge(docs)->Ok_0.len() == 1
            &&& spec_merge(docs)->Ok_0[0].key == k
            &&& spec_merge(docs)->Ok_0[0].type_hint == Some((h, l2))
        }),
{
    let v1 = VarV { key: k, type_hint: Some((h, l1)) };
    let v2 = VarV { key: k, type_hint: Some((h, l2)) };
    let docs = seq![(seq![v1], m1), (seq![v2], m2)];
    let e1 = EntryV { key: k, type_hint: Some((h, l1)), meta: m1 };
    let e2 = EntryV { key: k, type_hint: Some((h, l2)), meta: m2 };

    lemma_char_seq_lt_total(k, k);
    reveal_with_fuel(spec_merge_vars, 3);
    reveal_with_fuel(crate::dotenv::zod::spec_merge_docs, 3);
    assert(Seq::<EntryV>::empty().insert(0, e1) =~= seq![e1]);
    assert(spec_merge_step(Seq::empty(), v1, m1) == Ok::<_, ParseErrorV>(seq![e1]));
    assert(seq![v1].drop_first() =~= Seq::<VarV>::empty());
    assert(spec_merge_vars(Seq::empty(), seq![v1], m1) == Ok::<_, ParseErrorV>(seq![e1]));

    assert(seq![e1].update(0, e2) =~= seq![e2]);
    assert(spec_merge_step(seq![e1], v2, m2) == Ok::<_, ParseErrorV>(seq![e2]));
    assert(seq![v2].drop_first() =~= Seq::<VarV>::empty());
    assert(spec_merge_vars(seq![e1], seq![v2], m2) == Ok::<_, ParseErrorV>(seq![e2]));

    assert(docs.drop_first() =~= seq![(seq![v2], m2)]);
    assert(docs.drop_first().drop_first() =~= Seq::<(Seq<VarV>, MetaV)>::empty());
    assert(spec_merge(docs) == Ok::<_, ParseErrorV>(seq![e2]));
}

/// Two documents declaring the same key with different explicit hints
/// make the merge fail with a conflict that cites both provenances, in
/// the order the documents were supplied.
pub proof fn lemma_merge_conflicting_hints(
    k: Seq<char>,
    h1: HintV,
    h2: HintV,
    l1: int,
    l2: int,
    m1: MetaV,
    m2: MetaV,
)
    requires
        h1 != h2,
    ensures
        ({
            let docs = seq![
                (seq![VarV { key: k, type_hint: Some((h1, l1)) }], m1),
                (seq![VarV { key: k, type_hint: Some((h2, l2)) }], m2),
            ];
            spec_merge(docs) == Err::<Seq<EntryV>, _>(
                ParseErrorV::ConflictingTypes {
                    a: ThAtV { th: h1, line: l1, meta: m1 },
                    b: ThAtV { th: h2, line: l2, meta: m2 },
                },
            )
        }),
{
    let v1 = VarV { key: k, type_hint: Some((h1, l1)) };
    let v2 = VarV { key: k, type_hint: Some((h2, l2)) };
    let docs = seq![(seq![v1], m1), (seq![v2], m2)];
    let e1 = EntryV { key: k, type_hint: Some((h1, l1)), meta: m1 };

    lemma_char_seq_lt_total(k, k);
    reveal_with_fuel(spec_merge_vars, 3);
    reveal_with_fuel(crate::dotenv::zod::spec_merge_docs, 3);
    assert(Seq::<EntryV>::empty().insert(0, e1) =~= seq![e1]);
    assert(spec_merge_step(Seq::empty(), v1, m1) == Ok::<_, ParseErrorV>(seq![e1]));
    assert(seq![v1].drop_first() =~= Seq::<VarV>::empty());
    assert(spec_merge_vars(Seq::empty(), seq![v1], m1) == Ok::<_, ParseErrorV>(seq![e1]));

    let err = ParseErrorV::ConflictingTypes {
        a: ThAtV { th: h1, line: l1, meta: m1 },
        b: ThAtV { th: h2, line: l2, meta: m2 },
    };
    assert(spec_merge_step(seq![e1], v2, m2) == Err::<Seq<EntryV>, _>(err));
    assert(spec_merge_vars(seq![e1], seq![v2], m2) == Err::<Seq<EntryV>, _>(err));

    assert(docs.drop_first() =~= seq![(seq![v2], m2)]);
    assert(spec_merge(docs) == Err::<Seq<EntryV>, _>(err));
}

/// A hinted and an unhinted declaration of the same key merge without
/// conflict, whatever their order, and the one entry keeps the concrete
/// hint.
pub proof fn lemma_merge_hint_meets_none(k: Seq<char>, h: HintV, l: int, m1: MetaV, m2: MetaV)
    ensures
        ({
            let docs = seq![
                (seq![VarV { key: k, type_hint: Some((h, l)) }], m1),
                (seq![VarV { key: k, type_hint: None }], m2),
            ];
            &&& spec_merge(docs) is Ok
            &&& spec_merge(docs)->Ok_0.len() == 1
            &&& spec_merge(docs)->Ok_0[0].key == k
            &&& spec_merge(docs)->Ok_0[0].type_hint == Some((h, l))
        }),
        ({
            let docs = seq![
                (seq![VarV { key: k, type_hint: None }], m1),
                (seq![VarV { key: k, type_hint: Some((h, l)) }], m2),
            ];
            &&& spec_merge(docs) is Ok
            &&& spec_merge(docs)->Ok_0.len() == 1
            &&& spec_merge(docs)->Ok_0[0].key == k
            &&& spec_merge(docs)->Ok_0[0].type_hint == Some((h, l))
        }),
{
    lemma_char_seq_lt_total(k, k);
    reveal_with_fuel(spec_merge_vars, 3);
    reveal_with_fuel(crate::dotenv::zod::spec_merge_docs, 3);

    let vh = VarV { key: k, type_hint: Some((h, l)) };
    let vn = VarV { key: k, type_hint: None };
    let eh1 = EntryV { key: k, type_hint: Some((h, l)), meta: m1 };
    let en1 = EntryV { key: k, type_hint: None, meta: m1 };
    let eh2 = EntryV { key: k, type_hint: Some((h, l)), meta: m2 };

    // hinted first: the stored hint is kept when the hintless record comes
    let docs_a = seq![(seq![vh], m1), (seq![vn], m2)];
    assert(Seq::<EntryV>::empty().insert(0, eh1) =~= seq![eh1]);
    assert(spec_merge_step(Seq::empty(), vh, m1) == Ok::<_, ParseErrorV>(seq![eh1]));
    assert(seq![vh].drop_first() =~= Seq::<VarV>::empty());
    assert(spec_merge_vars(Seq::empty(), seq![vh], m1) == Ok::<_, ParseErrorV>(seq![eh1]));
    assert(spec_merge_step(seq![eh1], vn, m2) == Ok::<_, ParseErrorV>(seq![eh1]));
    assert(seq![vn].drop_first() =~= Seq::<VarV>::empty());
    assert(spec_merge_vars(seq![eh1], seq![vn], m2) == Ok::<_, ParseErrorV>(seq![eh1]));
    assert(docs_a.drop_first() =~= seq![(seq![vn], m2)]);
    assert(docs_a.drop_first().drop_first() =~= Seq::<(Seq<VarV>, MetaV)>::empty());
    assert(spec_merge(docs_a) == Ok::<_, ParseErrorV>(seq![eh1]));

    // hintless first: the hinted record replaces it
    let docs_b = seq![(seq![vn], m1), (seq![vh], m2)];
    assert(Seq::<EntryV>::empty().insert(0, en1) =~= seq![en1]);
    assert(spec_merge_step(Seq::empty(), vn, m1) == Ok::<_, ParseErrorV>(seq![en1]));
    assert(spec_merge_vars(Seq::empty(), seq![vn], m1) == Ok::<_, ParseErrorV>(seq![en1]));
    assert(seq![en1].update(0, eh2) =~= seq![eh2]);
    assert(spec_merge_step(seq![en1], vh, m2) == Ok::<_, ParseErrorV>(seq![eh2]));
    assert(spec_merge_vars(seq![en1], seq![vh], m2) == Ok::<_, ParseErrorV>(seq![eh2]));
    assert(docs_b.drop_first() =~= seq![(seq![vh], m2)]);
    assert(docs_b.drop_first().drop_first() =~= Seq::<(Seq<VarV>, MetaV)>::empty());
    assert(spec_merge(docs_b) == Ok::<_, ParseErrorV>(seq![eh2]));
}

/// Strictly ascending key order: every key stands once, in order.
pub open spec fn ascending(ks: Seq<Seq<char>>) -> bool {
    forall|i: int, j: int| 0 <= i < j < ks.len() ==> char_seq_lt(#[trigger] ks[i], #[trigger] ks[j])
}

proof fn lemma_key_lb_props(ks: Seq<Seq<char>>, key: Seq<char>, i: int)
    requires
        0 <= i <= ks.len(),
    ensures
        i <= key_lb_from(ks, key, i) <= ks.len(),
        forall|j: int| i <= j < key_lb_from(ks, key, i) ==> char_seq_lt(#[trigger] ks[j], key),
        key_lb_from(ks, key, i) < ks.len() ==> !char_seq_lt(ks[key_lb_from(ks, key, i)], key),
    decreases ks.len() - i,
{
    if i < ks.len() && char_seq_lt(ks[i], key) {
        lemma_key_lb_props(ks, key, i + 1);
    }
}

/// Inserting a key keeps the set ascending and adds exactly that key.
proof fn lemma_keyset_insert_props(ks: Seq<Seq<char>>, k: Seq<char>)
    requires
        ascending(ks),
    ensures
        ascending(spec_keyset_insert(ks, k)),
        forall|x: Seq<char>|
            #[trigger] spec_keyset_insert(ks, k).contains(x) <==> ks.contains(x) || x == k,
{
    lemma_key_lb_props(ks, k, 0);
    let i = key_lb(ks, k);
    let r = spec_keyset_insert(ks, k);
    if 0 <= i < ks.len() && ks[i] == k {
        assert forall|x: Seq<char>| #[trigger] r.contains(x) implies ks.contains(x) || x
            == k by {}
        assert forall|x: Seq<char>| ks.contains(x) || x == k implies #[trigger] r.contains(
            x,
        ) by {
            if x == k {
                assert(r[i] == k);
            }
        }
    } else {
        assert(i < ks.len() ==> ks[i] != k);
        assert forall|a: int, b: int| 0 <= a < b < r.len() implies char_seq_lt(
            #[trigger] r[a],
            #[trigger] r[b],
        ) by {
            lemma_char_seq_lt_total(k, if b == i {
                r[a]
            } else {
                r[b]
            });
            lemma_char_seq_lt_total(k, if a == i {
                r[b]
            } else {
                r[a]
            });
            if a < i && b == i {
                assert(r[a] == ks[a]);
                assert(char_seq_lt(ks[a], k));
            } else if a == i && b > i {
                assert(r[b] == ks[b - 1]);
                assert(b - 1 >= i);
                assert(!char_seq_lt(ks[b - 1], k)) by {
                    if b - 1 > i && char_seq_lt(ks[b - 1], k) {
                        assert(char_seq_lt(ks[i], ks[b - 1]));
                        crate::strutil::lemma_char_seq_lt_trans(ks[i], ks[b - 1], k);
                    }
                }
                assert(ks[b - 1] != k) by {
                    if b - 1 == i {
                    } else {
                        if ks[b - 1] == k {
                            assert(char_seq_lt(ks[i], ks[b - 1]));
                            assert(!char_seq_lt(ks[i], k));
                        }
                    }
                }
                lemma_char_seq_lt_total(k, ks[b - 1]);
            } else if a < i && b > i {
                assert(r[a] == ks[a] && r[b] == ks[b - 1]);
                if i == ks.len() {
                } else {
                }
                if a < b - 1 {
                    assert(char_seq_lt(ks[a], ks[b - 1]));
                } else {
                    assert(a == i - 1 && b == i + 1);
                    assert(char_seq_lt(ks[a], k));
                    assert(!char_seq_lt(ks[b - 1], k));
                    assert(ks[b - 1] != k);
                    lemma_char_seq_lt_total(k, ks[b - 1]);
                    crate::strutil::lemma_char_seq_lt_trans(ks[a], k, ks[b - 1]);
                }
            } else if b < i {
                assert(r[a] == ks[a] && r[b] == ks[b]);
            } else if a > i {
                assert(r[a] == ks[a - 1] && r[b] == ks[b - 1]);
            }
        }
        assert forall|x: Seq<char>| #[trigger] r.contains(x) implies ks.contains(x) || x
            == k by {
            let w = choose|w: int| 0 <= w < r.len() && r[w] == x;
            if w < i {
                assert(ks[w] == x);
            } else if w > i {
                assert(ks[w - 1] == x);
            }
        }
        assert forall|x: Seq<char>| ks.contains(x) || x == k implies #[trigger] r.contains(
            x,
        ) by {
            if x == k {
                assert(r[i] == k);
            } else {
                let w = choose|w: int| 0 <= w < ks.len() && ks[w] == x;
                if w < i {
                    assert(r[w] == x);
                } else {
                    assert(r[w + 1] == x);
                }
            }
        }
    }
}

/// Adding a document's keys keeps the set ascending and adds exactly
/// those keys.
proof fn lemma_keyset_add_props(ks: Seq<Seq<char>>, keys: Seq<Seq<char>>)
    requires
        ascending(ks),
    ensures
        ascending(spec_keyset_add(ks, keys)),
        forall|x: Seq<char>|
            #[trigger] spec_keyset_add(ks, keys).contains(x) <==> ks.contains(x) || keys.contains(
                x,
            ),
    decreases keys.len(),
{
    if keys.len() == 0 {
        assert forall|x: Seq<char>| #[trigger] spec_keyset_add(ks, keys).contains(x)
            <==> ks.contains(x) || keys.contains(x) by {
            if keys.contains(x) {
                let w = choose|w: int| 0 <= w < keys.len() && keys[w] == x;
            }
        }
    } else {
        lemma_keyset_insert_props(ks, keys[0]);
        lemma_keyset_add_props(spec_keyset_insert(ks, keys[0]), keys.drop_first());
        assert forall|x: Seq<char>| #[trigger] spec_keyset_add(ks, keys).contains(x)
            <==> ks.contains(x) || keys.contains(x) by {
            assert(spec_keyset_add(ks, keys) == spec_keyset_add(
                spec_keyset_insert(ks, keys[0]),
                keys.drop_first(),
            ));
            if keys.drop_first().contains(x) {
                let w = choose|w: int| 0 <= w < keys.drop_first().len() && keys.drop_first()[w]
                    == x;
                assert(keys[w + 1] == x);
            }
            if keys.contains(x) {
                let w = choose|w: int| 0 <= w < keys.len() && keys[w] == x;
                if w > 0 {
                    assert(keys.drop_first()[w - 1] == x);
                }
            }
        }
    }
}

/// Folding in whole documents keeps the set ascending and adds exactly
/// their keys.
proof fn lemma_keyset_docs_props(ks: Seq<Seq<char>>, texts: Seq<Seq<char>>)
    requires
        ascending(ks),
    ensures
        ascending(spec_keyset_docs(ks, texts)),
        forall|x: Seq<char>|
            #[trigger] spec_keyset_docs(ks, texts).contains(x) <==> ks.contains(x) || exists|d: int|
                0 <= d < texts.len() && spec_doc_keys(#[trigger] texts[d]).contains(x),
    decreases texts.len(),
{
    if texts.len() > 0 {
        lemma_keyset_add_props(ks, spec_doc_keys(texts[0]));
        lemma_keyset_docs_props(spec_keyset_add(ks, spec_doc_keys(texts[0])), texts.drop_first());
        assert forall|x: Seq<char>| #[trigger] spec_keyset_docs(ks, texts).contains(x)
            <==> ks.contains(x) || exists|d: int|
            0 <= d < texts.len() && spec_doc_keys(#[trigger] texts[d]).contains(x) by {
            if exists|d: int|
                0 <= d < texts.drop_first().len() && spec_doc_keys(
                    #[trigger] texts.drop_first()[d],
                ).contains(x) {
                let d = choose|d: int|
                    0 <= d < texts.drop_first().len() && spec_doc_keys(
                        #[trigger] texts.drop_first()[d],
                    ).contains(x);
                assert(texts.drop_first()[d] == texts[d + 1]);
                assert(spec_doc_keys(texts[d + 1]).contains(x));
            }
            if exists|d: int|
                0 <= d < texts.len() && spec_doc_keys(#[trigger] texts[d]).contains(x) {
                let d = choose|d: int|
                    0 <= d < texts.len() && spec_doc_keys(#[trigger] texts[d]).contains(x);
                if d > 0 {
                    assert(texts.drop_first()[d - 1] == texts[d]);
                    assert(spec_doc_keys(texts.drop_first()[d - 1]).contains(x));
                }
            }
        }
    }
}

/// The rendered declaration lists every distinct key across all input
/// documents exactly once, in ascending order.
pub proof fn lemma_decls_keys(texts: Seq<Seq<char>>)
    ensures
        ascending(spec_keyset(texts)),
        forall|x: Seq<char>|
            #[trigger] spec_keyset(texts).contains(x) <==> exists|d: int|
                0 <= d < texts.len() && spec_doc_keys(#[trigger] texts[d]).contains(x),
{
    lemma_keyset_docs_props(Seq::empty(), texts);
}

/// Two strictly ascending key sets with the same members are the same
/// sequence.
proof fn lemma_ascending_canonical(a: Seq<Seq<char>>, b: Seq<Seq<char>>)
    requires
        ascending(a),
        ascending(b),
        forall|x: Seq<char>| a.contains(x) <==> b.contains(x),
    ensures
        a =~= b,
    decreases a.len(),
{
    if a.len() == 0 {
        if b.len() > 0 {
            assert(b.contains(b[0]));
            assert(a.contains(b[0]));
        }
    } else {
        assert(a.contains(a[0]));
        assert(b.contains(a[0]));
        assert(b.len() > 0);
        assert(b.contains(b[0]));
        assert(a.contains(b[0]));
        let ia = choose|w: int| 0 <= w < a.len() && a[w] == b[0];
        let ib = choose|w: int| 0 <= w < b.len() && b[w] == a[0];
        if a[0] != b[0] {
            assert(ia > 0 && char_seq_lt(a[0], a[ia]));
            assert(ib > 0 && char_seq_lt(b[0], b[ib]));
            crate::strutil::lemma_char_seq_lt_trans(a[0], b[0], a[0]);
            lemma_char_seq_lt_total(a[0], a[0]);
        }
        assert(a[0] == b[0]);
        let ta = a.drop_first();
        let tb = b.drop_first();
        assert forall|x: Seq<char>| ta.contains(x) <==> tb.contains(x) by {
            lemma_tail_membership(a, x);
            lemma_tail_membership(b, x);
        }
        lemma_ascending_canonical(ta, tb);
        assert forall|i: int| 0 <= i < a.len() implies a[i] == b[i] by {
            if i > 0 {
                assert(ta[i - 1] == tb[i - 1]);
            }
        }
    }
}

/// In a strictly ascending set, the tail holds exactly the members other
/// than the head.
proof fn lemma_tail_membership(a: Seq<Seq<char>>, x: Seq<char>)
    requires
        ascending(a),
        a.len() > 0,
    ensures
        a.drop_first().contains(x) <==> a.contains(x) && x != a[0],
{
    let t = a.drop_first();
    if t.contains(x) {
        let w = choose|w: int| 0 <= w < t.len() && t[w] == x;
        assert(a[w + 1] == x);
        assert(char_seq_lt(a[0], a[w + 1]));
        lemma_char_seq_lt_total(a[0], x);
    }
    if a.contains(x) && x != a[0] {
        let w = choose|w: int| 0 <= w < a.len() && a[w] == x;
        assert(w > 0);
        assert(t[w - 1] == x);
    }
}

/// The ambient declaration does not depend on the order the documents
/// come in: any reordering of the same documents renders the same text.
pub proof fn lemma_decls_order_irrelevant(t1: Seq<Seq<char>>, t2: Seq<Seq<char>>)
    requires
        t1.to_multiset() == t2.to_multiset(),
    ensures
        spec_decls_output(t1) == spec_decls_output(t2),
{
    lemma_decls_keys(t1);
    lemma_decls_keys(t2);
    broadcast use vstd::seq_lib::group_to_multiset_ensures;

    assert forall|x: Seq<char>| spec_keyset(t1).contains(x) <==> spec_keyset(t2).contains(
        x,
    ) by {
        assert forall|text: Seq<char>| t1.contains(text) <==> t2.contains(text) by {
            assert(t1.contains(text) <==> t1.to_multiset().count(text) > 0);
            assert(t2.contains(text) <==> t2.to_multiset().count(text) > 0);
        }
        if exists|d: int| 0 <= d < t1.len() && spec_doc_keys(#[trigger] t1[d]).contains(x) {
            let d = choose|d: int| 0 <= d < t1.len() && spec_doc_keys(#[trigger] t1[d]).contains(
                x,
            );
            assert(t1.contains(t1[d]));
            assert(t2.contains(t1[d]));
            let e = choose|e: int| 0 <= e < t2.len() && t2[e] == t1[d];
            assert(spec_doc_keys(t2[e]).contains(x));
        }
        if exists|d: int| 0 <= d < t2.len() && spec_doc_keys(#[trigger] t2[d]).contains(x) {
            let d = choose|d: int| 0 <= d < t2.len() && spec_doc_keys(#[trigger] t2[d]).contains(
                x,
            );
            assert(t2.contains(t2[d]));
            assert(t1.contains(t2[d]));
            let e = choose|e: int| 0 <= e < t1.len() && t1[e] == t2[d];
            assert(spec_doc_keys(t1[e]).contains(x));
        }
    }
    lemma_ascending_canonical(spec_keyset(t1), spec_keyset(t2));
}

/// The whole pipeline is a pure function of its input documents: run
/// twice on identical inputs, both renderers give byte-identical text.
pub proof fn lemma_pipeline_deterministic(
    t1: Seq<Seq<char>>,
    t2: Seq<Seq<char>>,
    s1: Seq<MetaV>,
    s2: Seq<MetaV>,
)
    requires
        t1 == t2,
        s1 == s2,
    ensures
        spec_decls_output(t1) == spec_decls_output(t2),
        crate::dotenv::zod::spec_zod_from_texts(s1) == crate::dotenv::zod::spec_zod_from_texts(
            s2,
        ),
{
}

} // verus!



