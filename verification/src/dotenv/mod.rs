//! Typed variable declarations extracted from environment-file documents:
//! the annotation parser, the per-document variable extractor, the
//! cross-document merge, and the text renderers.

pub mod parse;
pub mod typehint_parser;
pub mod zod;

use vstd::prelude::*;

use crate::strutil::{char_seq_lt, spec_join, spec_lines, split_lines, str_eq, str_lt};

use self::parse::{parse_variables, spec_keys};

verus! {

/// The keys one document declares.
pub open spec fn spec_doc_keys(text: Seq<char>) -> Seq<Seq<char>> {
    spec_keys(spec_lines(text), spec_lines(text).len() as int)
}

/// The first position in the ordered key set whose key is not below
/// `key`, looking at or after `i`.
pub open spec fn key_lb_from(ks: Seq<Seq<char>>, key: Seq<char>, i: int) -> int
    decreases ks.len() - i,
{
    if i < 0 || i >= ks.len() {
        ks.len() as int
    } else if !char_seq_lt(ks[i], key) {
        i
    } else {
        key_lb_from(ks, key, i + 1)
    }
}

/// The position a key has, or would take, in the ordered key set.
pub open spec fn key_lb(ks: Seq<Seq<char>>, key: Seq<char>) -> int {
    key_lb_from(ks, key, 0)
}

pub proof fn lemma_key_lb_is(ks: Seq<Seq<char>>, key: Seq<char>, i: int, k: int)
    requires
        0 <= i <= k <= ks.len(),
        forall|j: int| i <= j < k ==> char_seq_lt(ks[j], key),
        k == ks.len() || !char_seq_lt(ks[k], key),
    ensures
        key_lb_from(ks, key, i) == k,
    decreases k - i,
{
    if i < k {
        lemma_key_lb_is(ks, key, i + 1, k);
    }
}

/// Adds one key to the ordered key set; a key already present stays
/// where it is.
pub open spec fn spec_keyset_insert(ks: Seq<Seq<char>>, k: Seq<char>) -> Seq<Seq<char>> {
    let i = key_lb(ks, k);
    if 0 <= i < ks.len() && ks[i] == k {
        ks
    } else {
        ks.insert(i, k)
    }
}

/// Adds every key of one document to the ordered key set, in order.
pub open spec fn spec_keyset_add(ks: Seq<Seq<char>>, keys: Seq<Seq<char>>) -> Seq<Seq<char>>
    decreases keys.len(),
{
    if keys.len() == 0 {
        ks
    } else {
        spec_keyset_add(spec_keyset_insert(ks, keys[0]), keys.drop_first())
    }
}

/// Folds every document's keys into the ordered key set.
pub open spec fn spec_keyset_docs(ks: Seq<Seq<char>>, texts: Seq<Seq<char>>) -> Seq<Seq<char>>
    decreases texts.len(),
{
    if texts.len() == 0 {
        ks
    } else {
        spec_keyset_docs(spec_keyset_add(ks, spec_doc_keys(texts[0])), texts.drop_first())
    }
}

/// The distinct keys of all documents, in ascending order.
pub open spec fn spec_keyset(texts: Seq<Seq<char>>) -> Seq<Seq<char>> {
    spec_keyset_docs(Seq::empty(), texts)
}

/// The key set in the middle of a document: the rest of its keys, then
/// the remaining documents.
pub open spec fn spec_keyset_cont(
    ks: Seq<Seq<char>>,
    keys: Seq<Seq<char>>,
    texts: Seq<Seq<char>>,
) -> Seq<Seq<char>> {
    spec_keyset_docs(spec_keyset_add(ks, keys), texts)
}

/// One field of the ambient declaration: the key as an optional
/// string-typed field.
pub open spec fn spec_decl_line(k: Seq<char>) -> Seq<char> {
    "\n         "@ + k + "?: string"@
}

/// The declaration fields of the first `n` keys.
pub open spec fn spec_decl_lines(ks: Seq<Seq<char>>, n: int) -> Seq<Seq<char>>
    decreases n,
{
    if n <= 0 {
        Seq::empty()
    } else {
        spec_decl_lines(ks, n - 1) + seq![spec_decl_line(ks[n - 1])]
    }
}

/// The whole ambient declaration for a set of documents: every distinct
/// key across all of them exactly once, in ascending order, each as an
/// optional string-typed field. Type hints are deliberately erased here.
pub open spec fn spec_decls_output(texts: Seq<Seq<char>>) -> Seq<char> {
    let ks = spec_keyset(texts);
    "\ndeclare namespace NodeJS {\n    interface ProcessEnv {\n        "@ + spec_join(
        spec_decl_lines(ks, ks.len() as int),
        "\n"@,
    ) + "\n    }\n}\n               "@
}

/// Renders the ambient declaration for the documents: every distinct key
/// across all of them exactly once, sorted, as an optional string-typed
/// field, whatever order the documents come in.
pub fn generate_typescript_types_from_texts(texts: &Vec<String>) -> (r: String)
    ensures
        r@ == spec_decls_output(texts.deep_view()),
{
    let ghost t0 = texts.deep_view();
    let mut ks: Vec<String> = Vec::new();
    let nd = texts.len();
    let mut d: usize = 0;
    proof {
        assert(ks.deep_view() =~= Seq::<Seq<char>>::empty());
        assert(t0.skip(0) =~= t0);
    }
    while d < nd
        invariant
            nd == texts@.len(),
            texts.deep_view() == t0,
            d <= nd,
            spec_keyset(t0) == spec_keyset_docs(ks.deep_view(), t0.skip(d as int)),
        decreases nd - d,
    {
        let keys = parse_variables(texts[d].as_str());
        proof {
            assert(texts[d as int]@ == t0[d as int]);
            assert(keys.deep_view() == spec_doc_keys(t0[d as int]));
            assert(t0.skip(d as int)[0] == t0[d as int]);
            assert(t0.skip(d as int).drop_first() =~= t0.skip(d as int + 1));
            assert(keys.deep_view().skip(0) =~= keys.deep_view());
        }
        let nk = keys.len();
        let mut w: usize = 0;
        while w < nk
            invariant
                nk == keys@.len(),
                keys.deep_view() == spec_doc_keys(t0[d as int]),
                d < nd,
                nd == texts@.len(),
                texts.deep_view() == t0,
                w <= nk,
                spec_keyset(t0) == spec_keyset_cont(
                    ks.deep_view(),
                    keys.deep_view().skip(w as int),
                    t0.skip(d as int + 1),
                ),
            decreases nk - w,
        {
            let ghost ks_before = ks.deep_view();
            let key = keys[w];
            let ghost kv = key@;
            proof {
                assert(keys.deep_view().skip(w as int)[0] == kv);
                assert(keys.deep_view().skip(w as int).drop_first() =~= keys.deep_view().skip(
                    w as int + 1,
                ));
            }
            let n = ks.len();
            let mut i: usize = 0;
            loop
                invariant
                    n == ks@.len(),
                    ks.deep_view() == ks_before,
                    kv == key@,
                    i <= n,
                    forall|j: int| 0 <= j < i ==> char_seq_lt(ks.deep_view()[j], kv),
                ensures
                    i <= n,
                    forall|j: int| 0 <= j < i ==> char_seq_lt(ks.deep_view()[j], kv),
                    i == n || !char_seq_lt(ks.deep_view()[i as int], kv),
                decreases n - i,
            {
                if i >= n {
                    break ;
                }
                proof {
                    assert(ks.deep_view()[i as int] == ks@[i as int]@);
                }
                if str_lt(ks[i].as_str(), key) {
                    i += 1;
                } else {
                    break ;
                }
            }
            proof {
                lemma_key_lb_is(ks.deep_view(), kv, 0, i as int);
                assert(key_lb(ks.deep_view(), kv) == i as int);
                if i < n {
                    assert(ks.deep_view()[i as int] == ks@[i as int]@);
                }
            }
            let present = i < n && str_eq(ks[i].as_str(), key);
            if !present {
                ks.insert(i, String::from_str(key));
                proof {
                    assert(ks.deep_view() =~= ks_before.insert(i as int, kv));
                    assert(spec_keyset_insert(ks_before, kv) == ks.deep_view());
                }
            } else {
                proof {
                    assert(spec_keyset_insert(ks_before, kv) == ks.deep_view());
                }
            }
            w += 1;
        }
        proof {
            assert(keys.deep_view().skip(nk as int) =~= Seq::<Seq<char>>::empty());
        }
        d += 1;
    }
    proof {
        assert(t0.skip(nd as int) =~= Seq::<Seq<char>>::empty());
        assert(spec_keyset(t0) == ks.deep_view());
    }

    let ghost kset = ks.deep_view();
    let n = ks.len();
    let mut lines: Vec<String> = Vec::new();
    let mut i: usize = 0;
    while i < n
        invariant
            n == ks@.len(),
            ks.deep_view() == kset,
            i <= n,
            lines.deep_view() == spec_decl_lines(kset, i as int),
        decreases n - i,
    {
        proof {
            assert(ks.deep_view()[i as int] == ks@[i as int]@);
        }
        let mut line = String::from_str("\n         ");
        line.append(ks[i].as_str());
        line.append("?: string");
        proof {
            assert(line@ =~= spec_decl_line(kset[i as int]));
        }
        let ghost old_dv = lines.deep_view();
        lines.push(line);
        proof {
            assert(lines.deep_view() =~= old_dv + seq![spec_decl_line(kset[i as int])]);
        }
        i += 1;
    }

    let mut out = String::from_str("\ndeclare namespace NodeJS {\n    interface ProcessEnv {\n        ");
    let joined = crate::strutil::join(&lines, "\n");
    out.append(joined.as_str());
    out.append("\n    }\n}\n               ");
    proof {
        assert(out@ =~= spec_decls_output(t0));
    }
    out
}

} // verus!
