//! TypeScript declaration text for hierarchical (YAML-like) documents:
//! a library-owned value tree, a structural renderer over it, and the
//! file-stem to type-name conversion.
//!
//! Reading and deserialising the documents is the callers' work; the
//! tree here holds, as plain values, exactly what the renderer reads
//! (numbers as their rendered text).

use vstd::prelude::*;

use crate::strutil::{first_not, lemma_first_not_is, spec_join};

verus! {

broadcast use {
    vstd::std_specs::vec::axiom_vec_index_decreases,
    vstd::std_specs::vec::axiom_vec_decreases_to_view,
    vstd::seq::axiom_seq_index_decreases,
};

/// The mathematical value of a document tree.
pub enum YamlV {
    Null,
    Bool(bool),
    Number(Seq<char>),
    Str(Seq<char>),
    Sequence(Seq<YamlV>),
    Mapping(Seq<(YamlV, YamlV)>),
}

/// One parsed document: scalars as plain values — a number as its
/// rendered text — with sequences and mappings of further values.
#[derive(Debug)]
pub enum YamlValue {
    Null,
    Bool(bool),
    Number(String),
    String(String),
    Sequence(Vec<YamlValue>),
    Mapping(Vec<(YamlValue, YamlValue)>),
}

/// The tree a value denotes.
pub open spec fn yaml_view(v: YamlValue) -> YamlV
    decreases v,
{
    match v {
        YamlValue::Null => YamlV::Null,
        YamlValue::Bool(b) => YamlV::Bool(b),
        YamlValue::Number(s) => YamlV::Number(s@),
        YamlValue::String(s) => YamlV::Str(s@),
        YamlValue::Sequence(items) => YamlV::Sequence(
            Seq::new(
                items@.len(),
                |i: int|
                    if 0 <= i < items@.len() {
                        yaml_view(items@[i])
                    } else {
                        YamlV::Null
                    },
            ),
        ),
        YamlValue::Mapping(pairs) => YamlV::Mapping(
            Seq::new(
                pairs@.len(),
                |i: int|
                    if 0 <= i < pairs@.len() {
                        (yaml_view(pairs@[i].0), yaml_view(pairs@[i].1))
                    } else {
                        (YamlV::Null, YamlV::Null)
                    },
            ),
        ),
    }
}

impl View for YamlValue {
    type V = YamlV;

    open spec fn view(&self) -> YamlV {
        yaml_view(*self)
    }
}

impl DeepView for YamlValue {
    type V = YamlV;

    open spec fn deep_view(&self) -> YamlV {
        yaml_view(*self)
    }
}

/// The TypeScript type text of one tree: scalars become literal types,
/// a sequence a tuple, a mapping an object type.
pub open spec fn spec_introspect(v: YamlV) -> Seq<char>
    decreases v, 1int, 0int,
{
    match v {
        YamlV::Null => "null"@,
        YamlV::Bool(b) => if b {
            "true"@
        } else {
            "false"@
        },
        YamlV::Number(s) => s,
        YamlV::Str(s) => seq!['\''] + s + seq!['\''],
        YamlV::Sequence(items) => seq!['['] + spec_join(
            spec_introspect_items(items, items.len() as int),
            ","@,
        ) + seq![']'],
        YamlV::Mapping(pairs) => seq!['{'] + spec_join(
            spec_introspect_pairs(pairs, pairs.len() as int),
            ","@,
        ) + seq!['}'],
    }
}

/// The type texts of the first `n` elements of a sequence.
pub open spec fn spec_introspect_items(items: Seq<YamlV>, n: int) -> Seq<Seq<char>>
    decreases items, 0int, n,
{
    if !(0 < n <= items.len()) {
        Seq::empty()
    } else {
        spec_introspect_items(items, n - 1) + seq![spec_introspect(items[n - 1])]
    }
}

/// The `key: value` type texts of the first `n` entries of a mapping.
pub open spec fn spec_introspect_pairs(pairs: Seq<(YamlV, YamlV)>, n: int) -> Seq<Seq<char>>
    decreases pairs, 0int, n,
{
    if !(0 < n <= pairs.len()) {
        Seq::empty()
    } else {
        spec_introspect_pairs(pairs, n - 1) + seq![
            spec_introspect(pairs[n - 1].0) + ": "@ + spec_introspect(pairs[n - 1].1),
        ]
    }
}


/// Renders one tree as its TypeScript type text.
#[verifier::loop_isolation(false)]
pub fn introspect_typescript_types(value: &YamlValue) -> (r: String)
    ensures
        r@ == spec_introspect(value@),
    decreases *value,
{
    match value {
        YamlValue::Null => String::from_str("null"),
        YamlValue::Bool(b) => if *b {
            String::from_str("true")
        } else {
            String::from_str("false")
        },
        YamlValue::Number(s) => s.clone(),
        YamlValue::String(s) => {
            proof {
                reveal_strlit("'");
            }
            let out = String::from_str("'").concat(s.as_str()).concat("'");
            proof {
                assert(out@ =~= spec_introspect(value@));
            }
            out
        },
        YamlValue::Sequence(items) => {
            let ghost iv = value@->Sequence_0;
            let n = items.len();
            let mut parts: Vec<String> = Vec::new();
            let mut j: usize = 0;
            while j < n
                invariant
                    *value == YamlValue::Sequence(*items),
                    n == items@.len(),
                    iv == Seq::new(
                        items@.len(),
                        |i: int|
                            if 0 <= i < items@.len() {
                                yaml_view(items@[i])
                            } else {
                                YamlV::Null
                            },
                    ),
                    j <= n,
                    parts.deep_view() == spec_introspect_items(iv, j as int),
                decreases n - j,
            {
                let part = introspect_typescript_types(&items[j]);
                proof {
                    assert(iv[j as int] == yaml_view(items@[j as int]));
                }
                let ghost old_dv = parts.deep_view();
                parts.push(part);
                proof {
                    assert(parts.deep_view() =~= old_dv + seq![spec_introspect(iv[j as int])]);
                    assert(iv.len() == items@.len());
                }
                j += 1;
            }
            let mut out = String::from_str("[");
            let joined = crate::strutil::join(&parts, ",");
            out.append(joined.as_str());
            out.append("]");
            proof {
                reveal_strlit("[");
                reveal_strlit("]");
                assert(out@ =~= spec_introspect(value@));
            }
            out
        },
        YamlValue::Mapping(pairs) => {
            let ghost pv = value@->Mapping_0;
            let n = pairs.len();
            let mut parts: Vec<String> = Vec::new();
            let mut j: usize = 0;
            while j < n
                invariant
                    *value == YamlValue::Mapping(*pairs),
                    n == pairs@.len(),
                    pv == Seq::new(
                        pairs@.len(),
                        |i: int|
                            if 0 <= i < pairs@.len() {
                                (yaml_view(pairs@[i].0), yaml_view(pairs@[i].1))
                            } else {
                                (YamlV::Null, YamlV::Null)
                            },
                    ),
                    j <= n,
                    parts.deep_view() == spec_introspect_pairs(pv, j as int),
                decreases n - j,
            {
                let mut part = introspect_typescript_types(&pairs[j].0);
                part.append(": ");
                let vtext = introspect_typescript_types(&pairs[j].1);
                part.append(vtext.as_str());
                proof {
                    assert(pv[j as int] == (yaml_view(pairs@[j as int].0), yaml_view(
                        pairs@[j as int].1,
                    )));
                    assert(part@ =~= spec_introspect(pv[j as int].0) + ": "@ + spec_introspect(
                        pv[j as int].1,
                    ));
                }
                let ghost old_dv = parts.deep_view();
                parts.push(part);
                proof {
                    assert(parts.deep_view() =~= old_dv + seq![
                        spec_introspect(pv[j as int].0) + ": "@ + spec_introspect(
                            pv[j as int].1,
                        ),
                    ]);
                    assert(pv.len() == pairs@.len());
                }
                j += 1;
            }
            let mut out = String::from_str("{");
            let joined = crate::strutil::join(&parts, ",");
            out.append(joined.as_str());
            out.append("}");
            proof {
                reveal_strlit("{");
                reveal_strlit("}");
                assert(out@ =~= spec_introspect(value@));
            }
            out
        },
    }
}

/// The characters that do not part a file stem into words.
pub open spec fn p_not_sep() -> spec_fn(char) -> bool {
    |c: char| c != '-' && c != '.'
}

/// The file stem split at every `'-'` and `'.'`; a stem without either
/// is one segment, and an empty stem one empty segment.
pub open spec fn spec_segments(s: Seq<char>) -> Seq<Seq<char>>
    decreases s.len(),
{
    let j = first_not(s, 0, p_not_sep());
    if !(0 <= j < s.len()) {
        seq![s]
    } else {
        seq![s.subrange(0, j)] + spec_segments(s.subrange(j + 1, s.len() as int))
    }
}

/// The upper-case form of an ASCII character; anything else stays.
pub open spec fn spec_upper_char(c: char) -> char {
    if crate::strutil::is_ascii_lower(c) {
        (((c as u32) - 32) as char)
    } else {
        c
    }
}

/// A word with its first character upper-cased.
pub open spec fn spec_first_upper(seg: Seq<char>) -> Seq<char>
    recommends
        seg.len() > 0,
{
    seq![spec_upper_char(seg[0])] + seg.drop_first()
}

/// A segment the conversion accepts: non-empty with an ASCII first
/// character.
pub open spec fn good_segment(seg: Seq<char>) -> bool {
    seg.len() > 0 && (seg[0] as u32) < 128
}

/// The first `n` segments, each with its first character upper-cased.
pub open spec fn spec_upper_segs(segs: Seq<Seq<char>>, n: int) -> Seq<Seq<char>>
    decreases n,
{
    if n <= 0 {
        Seq::empty()
    } else {
        spec_upper_segs(segs, n - 1) + seq![spec_first_upper(segs[n - 1])]
    }
}

/// The type name of a file stem: every word capitalised and joined.
pub open spec fn spec_type_name(fname: Seq<char>) -> Seq<char> {
    spec_join(
        spec_upper_segs(spec_segments(fname), spec_segments(fname).len() as int),
        Seq::empty(),
    )
}

/// The upper-case form of one ASCII lower-case letter, as text.
fn upper_ascii_str(c: char) -> (r: &'static str)
    requires
        crate::strutil::is_ascii_lower(c),
    ensures
        r@ =~= seq![spec_upper_char(c)],
{
    proof {
            reveal_strlit("A");
            vstd::utf8::char_u32_cast('A', 65);
            reveal_strlit("B");
            vstd::utf8::char_u32_cast('B', 66);
            reveal_strlit("C");
            vstd::utf8::char_u32_cast('C', 67);
            reveal_strlit("D");
            vstd::utf8::char_u32_cast('D', 68);
            reveal_strlit("E");
            vstd::utf8::char_u32_cast('E', 69);
            reveal_strlit("F");
            vstd::utf8::char_u32_cast('F', 70);
            reveal_strlit("G");
            vstd::utf8::char_u32_cast('G', 71);
            reveal_strlit("H");
            vstd::utf8::char_u32_cast('H', 72);
            reveal_strlit("I");
            vstd::utf8::char_u32_cast('I', 73);
            reveal_strlit("J");
            vstd::utf8::char_u32_cast('J', 74);
            reveal_strlit("K");
            vstd::utf8::char_u32_cast('K', 75);
            reveal_strlit("L");
            vstd::utf8::char_u32_cast('L', 76);
            reveal_strlit("M");
            vstd::utf8::char_u32_cast('M', 77);
            reveal_strlit("N");
            vstd::utf8::char_u32_cast('N', 78);
            reveal_strlit("O");
            vstd::utf8::char_u32_cast('O', 79);
            reveal_strlit("P");
            vstd::utf8::char_u32_cast('P', 80);
            reveal_strlit("Q");
            vstd::utf8::char_u32_cast('Q', 81);
            reveal_strlit("R");
            vstd::utf8::char_u32_cast('R', 82);
            reveal_strlit("S");
            vstd::utf8::char_u32_cast('S', 83);
            reveal_strlit("T");
            vstd::utf8::char_u32_cast('T', 84);
            reveal_strlit("U");
            vstd::utf8::char_u32_cast('U', 85);
            reveal_strlit("V");
            vstd::utf8::char_u32_cast('V', 86);
            reveal_strlit("W");
            vstd::utf8::char_u32_cast('W', 87);
            reveal_strlit("X");
            vstd::utf8::char_u32_cast('X', 88);
            reveal_strlit("Y");
            vstd::utf8::char_u32_cast('Y', 89);
            reveal_strlit("Z");
            vstd::utf8::char_u32_cast('Z', 90);
    }
    match c {
        'a' => "A",
        'b' => "B",
        'c' => "C",
        'd' => "D",
        'e' => "E",
        'f' => "F",
        'g' => "G",
        'h' => "H",
        'i' => "I",
        'j' => "J",
        'k' => "K",
        'l' => "L",
        'm' => "M",
        'n' => "N",
        'o' => "O",
        'p' => "P",
        'q' => "Q",
        'r' => "R",
        's' => "S",
        't' => "T",
        'u' => "U",
        'v' => "V",
        'w' => "W",
        'x' => "X",
        'y' => "Y",
        _ => "Z",
    }
}

/// Upper-cases the first character of a word.
pub fn to_first_uppercase(n: &str) -> (r: String)
    requires
        good_segment(n@),
    ensures
        r@ == spec_first_upper(n@),
{
    let len = n.unicode_len();
    let c = n.get_char(0);
    let rest = n.substring_char(1, len);
    let first = if crate::strutil::ascii_lower(c) {
        upper_ascii_str(c)
    } else {
        let f = n.substring_char(0, 1);
        proof {
            assert(f@ =~= seq![spec_upper_char(n@[0])]);
        }
        f
    };
    let out = String::from_str(first).concat(rest);
    proof {
        assert(out@ =~= spec_first_upper(n@));
    }
    out
}

/// Turns a file stem into a type name: the stem is split at `'-'` and
/// `'.'`, every word is capitalised, and the words are joined.
pub fn file_name_to_type_name(fname: &str) -> (r: String)
    requires
        forall|i: int|
            0 <= i < spec_segments(fname@).len() ==> good_segment(
                #[trigger] spec_segments(fname@)[i],
            ),
    ensures
        r@ == spec_type_name(fname@),
{
    let ghost segs_v = spec_segments(fname@);
    let n = fname.unicode_len();
    let mut segs: Vec<&str> = Vec::new();
    let mut start: usize = 0;
    let mut i: usize = 0;
    proof {
        assert(fname@.skip(0) =~= fname@);
        assert(segs.deep_view() + spec_segments(fname@) =~= spec_segments(fname@));
    }
    while i < n
        invariant
            n == fname@.len(),
            start <= i <= n,
            forall|j: int| start <= j < i ==> fname@[j] != '-' && fname@[j] != '.',
            spec_segments(fname@) == segs.deep_view() + spec_segments(fname@.skip(start as int)),
        decreases n - i,
    {
        let c = fname.get_char(i);
        if c == '-' || c == '.' {
            let seg = fname.substring_char(start, i);
            proof {
                let not_sep = p_not_sep();
                let tail = fname@.skip(start as int);
                assert forall|j: int| 0 <= j < i - start implies not_sep(tail[j]) by {
                    assert(tail[j] == fname@[start + j]);
                }
                assert(!not_sep(tail[i - start as int]));
                lemma_first_not_is(tail, 0, i - start as int, not_sep);
                assert(tail.subrange(0, i - start as int) =~= fname@.subrange(
                    start as int,
                    i as int,
                ));
                assert(tail.subrange(i - start as int + 1, tail.len() as int) =~= fname@.skip(
                    i as int + 1,
                ));
                assert(spec_segments(tail) == seq![seg@] + spec_segments(fname@.skip(i as int + 1)));
                assert(segs.deep_view().push(seg@) =~= segs.deep_view() + seq![seg@]);
                assert((segs.deep_view() + seq![seg@]) + spec_segments(fname@.skip(i as int + 1))
                    =~= segs.deep_view() + (seq![seg@] + spec_segments(fname@.skip(i as int + 1))));
            }
            segs.push(seg);
            start = i + 1;
        }
        i += 1;
    }
    let last = fname.substring_char(start, n);
    proof {
        let not_sep = p_not_sep();
        let tail = fname@.skip(start as int);
        assert forall|j: int| 0 <= j < tail.len() implies not_sep(tail[j]) by {
            assert(tail[j] == fname@[start + j]);
        }
        lemma_first_not_is(tail, 0, tail.len() as int, not_sep);
        assert(tail =~= fname@.subrange(start as int, n as int));
        assert(spec_segments(tail) == seq![tail]);
        assert(segs.deep_view().push(last@) =~= segs.deep_view() + seq![tail]);
    }
    segs.push(last);
    proof {
        assert(segs.deep_view() =~= segs_v);
    }

    let m = segs.len();
    let mut parts: Vec<String> = Vec::new();
    let mut k: usize = 0;
    while k < m
        invariant
            m == segs@.len(),
            segs.deep_view() == segs_v,
            forall|j: int| 0 <= j < segs_v.len() ==> good_segment(#[trigger] segs_v[j]),
            k <= m,
            parts.deep_view() == spec_upper_segs(segs_v, k as int),
        decreases m - k,
    {
        proof {
            assert(segs.deep_view()[k as int] == segs@[k as int]@);
        }
        let part = to_first_uppercase(segs[k]);
        let ghost old_dv = parts.deep_view();
        parts.push(part);
        proof {
            assert(parts.deep_view() =~= old_dv + seq![spec_first_upper(segs_v[k as int])]);
        }
        k += 1;
    }
    let out = crate::strutil::join(&parts, "");
    proof {
        reveal_strlit("");
        assert(""@ =~= Seq::<char>::empty());
    }
    out
}

/// The declaration lines of the first `n` documents:
/// `export type Document<i> = <type text>`.
pub open spec fn spec_doc_decls(docs: Seq<YamlV>, n: int) -> Seq<Seq<char>>
    decreases n,
{
    if !(0 < n <= docs.len()) {
        Seq::empty()
    } else {
        spec_doc_decls(docs, n - 1) + seq![
            "export type Document"@ + crate::strutil::dec_rep((n - 1) as nat) + " = "@
                + spec_introspect(docs[n - 1]),
        ]
    }
}

/// The names of the first `n` documents: `Document<i>`.
pub open spec fn spec_doc_names(n: int) -> Seq<Seq<char>>
    decreases n,
{
    if n <= 0 {
        Seq::empty()
    } else {
        spec_doc_names(n - 1) + seq!["Document"@ + crate::strutil::dec_rep((n - 1) as nat)]
    }
}

/// The whole declaration text for a file stem and its parsed documents:
/// a single document becomes one named type, several become a namespace
/// of numbered types with a tuple of them all.
pub open spec fn spec_yaml_output(stem: Seq<char>, docs: Seq<YamlV>) -> Seq<char> {
    if docs.len() == 1 {
        "declare type "@ + spec_type_name(stem) + " = "@ + spec_introspect(docs[0])
    } else {
        "declare namespace "@ + spec_type_name(stem) + " { "@ + spec_join(
            spec_doc_decls(docs, docs.len() as int),
            ";\n"@,
        ) + ";\n export type All = ["@ + spec_join(spec_doc_names(docs.len() as int), ","@)
            + "] }"@
    }
}

/// Renders the declaration text for a file stem and its parsed
/// documents.
pub fn generate_typescript_types(file_stem: &str, documents: &Vec<YamlValue>) -> (r: String)
    requires
        forall|i: int|
            0 <= i < spec_segments(file_stem@).len() ==> good_segment(
                #[trigger] spec_segments(file_stem@)[i],
            ),
    ensures
        r@ == spec_yaml_output(file_stem@, documents.deep_view()),
{
    let name = file_name_to_type_name(file_stem);
    let n = documents.len();
    proof {
        assert(documents.deep_view().len() == documents@.len());
    }
    if n == 1 {
        let body = introspect_typescript_types(&documents[0]);
        let mut out = String::from_str("declare type ");
        out.append(name.as_str());
        out.append(" = ");
        out.append(body.as_str());
        proof {
            assert(documents.deep_view()[0] == documents@[0]@);
            assert(out@ =~= spec_yaml_output(file_stem@, documents.deep_view()));
        }
        out
    } else {
        let ghost dv = documents.deep_view();
        let mut decls: Vec<String> = Vec::new();
        let mut names: Vec<String> = Vec::new();
        let mut i: usize = 0;
        while i < n
            invariant
                n == documents@.len(),
                documents.deep_view() == dv,
                i <= n,
                decls.deep_view() == spec_doc_decls(dv, i as int),
                names.deep_view() == spec_doc_names(i as int),
            decreases n - i,
        {
            let idx = crate::strutil::usize_to_dec(i);
            let mut decl = String::from_str("export type Document");
            decl.append(idx.as_str());
            decl.append(" = ");
            let body = introspect_typescript_types(&documents[i]);
            decl.append(body.as_str());
            proof {
                assert(dv[i as int] == documents@[i as int]@);
                assert(decl@ =~= "export type Document"@ + crate::strutil::dec_rep(i as nat)
                    + " = "@ + spec_introspect(dv[i as int]));
            }
            let ghost old_decls = decls.deep_view();
            decls.push(decl);
            let mut nm = String::from_str("Document");
            nm.append(idx.as_str());
            proof {
                assert(nm@ =~= "Document"@ + crate::strutil::dec_rep(i as nat));
            }
            let ghost old_names = names.deep_view();
            names.push(nm);
            proof {
                assert(decls.deep_view() =~= old_decls + seq![
                    "export type Document"@ + crate::strutil::dec_rep(i as nat) + " = "@
                        + spec_introspect(dv[i as int]),
                ]);
                assert(names.deep_view() =~= old_names + seq![
                    "Document"@ + crate::strutil::dec_rep(i as nat),
                ]);
            }
            i += 1;
        }
        let mut out = String::from_str("declare namespace ");
        out.append(name.as_str());
        out.append(" { ");
        let j1 = crate::strutil::join(&decls, ";\n");
        out.append(j1.as_str());
        out.append(";\n export type All = [");
        let j2 = crate::strutil::join(&names, ",");
        out.append(j2.as_str());
        out.append("] }");
        proof {
            assert(out@ =~= spec_yaml_output(file_stem@, dv));
        }
        out
    }
}

} // verus!

