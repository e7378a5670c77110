//! The cross-document registry merge and the schema-module renderer:
//! folds every document's variables into one deduplicated, key-ordered
//! registry, aborts on the first type conflict with both provenances, and
//! renders the registry as a schema module.

use vstd::prelude::*;

use crate::strutil::{
    char_seq_lt, dec_rep, spec_join, spec_lines, split_lines, str_eq, str_lt, usize_to_dec,
};

use super::parse::{
    parse_variables_with_type_hints, spec_is_public, spec_variables, VarV, Variable,
};
use super::typehint_parser::{p_quoted, spec_hint_render, HintV, TypeHint};

verus! {

/// The mathematical value of a document's metadata.
pub struct MetaV {
    pub source: Seq<char>,
    pub path: Seq<char>,
}

/// One input document: its full text and the path it was read from.
#[derive(Debug)]
pub struct Metadata {
    source: String,
    path: String,
}

impl View for Metadata {
    type V = MetaV;

    closed spec fn view(&self) -> MetaV {
        MetaV { source: self.source@, path: self.path@ }
    }
}

impl DeepView for Metadata {
    type V = MetaV;

    closed spec fn deep_view(&self) -> MetaV {
        self.view()
    }
}

impl Clone for Metadata {
    fn clone(&self) -> (r: Self)
        ensures
            r@ == self@,
    {
        Metadata { source: self.source.clone(), path: self.path.clone() }
    }
}

impl Metadata {
    pub fn new(source: String, path: String) -> (r: Self)
        ensures
            r@ == (MetaV { source: source@, path: path@ }),
    {
        Metadata { source, path }
    }

    /// The document's text.
    pub fn source(&self) -> (r: &str)
        ensures
            r@ == self@.source,
    {
        self.source.as_str()
    }

    /// The path the document was read from.
    pub fn path(&self) -> (r: &str)
        ensures
            r@ == self@.path,
    {
        self.path.as_str()
    }
}

/// The mathematical value of a hint with its provenance.
pub struct ThAtV {
    pub th: HintV,
    pub line: int,
    pub meta: MetaV,
}

/// A type hint together with where it was written: the line index of its
/// annotation comment and the document it stands in.
#[derive(Debug)]
pub struct TypeHintAt {
    pub th: TypeHint,
    pub line: usize,
    pub meta: Metadata,
}

impl View for TypeHintAt {
    type V = ThAtV;

    open spec fn view(&self) -> ThAtV {
        ThAtV { th: self.th@, line: self.line as int, meta: self.meta@ }
    }
}

/// The mathematical value of a merge error.
pub enum ParseErrorV {
    ConflictingTypes { a: ThAtV, b: ThAtV },
}

/// Why a merge failed: two documents hinted the same key with different
/// concrete types. Both provenances are carried, in the order the
/// documents were supplied.
#[derive(Debug)]
pub enum ParseError {
    ConflictingTypes { a: TypeHintAt, b: TypeHintAt },
}

impl View for ParseError {
    type V = ParseErrorV;

    open spec fn view(&self) -> ParseErrorV {
        match self {
            ParseError::ConflictingTypes { a, b } => ParseErrorV::ConflictingTypes {
                a: a.view(),
                b: b.view(),
            },
        }
    }
}

/// A hint provenance that can be cited: its comment line and the
/// declaration line after it both lie within its document.
pub open spec fn spec_citable(t: ThAtV) -> bool {
    0 <= t.line && t.line + 1 < spec_lines(t.meta.source).len()
}

/// The two source lines a hint provenance points at, under its path:
///
/// ```text
/// <path>
///   <n>| <annotation comment>
///   <n+1>| <declaration>
/// ```
///
/// with the line numbers one-based.
pub open spec fn spec_report(t: ThAtV) -> Seq<char> {
    t.meta.path + "\n  "@ + dec_rep((t.line + 1) as nat) + "| "@ + spec_lines(t.meta.source)[
        t.line
    ] + "\n  "@ + dec_rep((t.line + 2) as nat) + "| "@ + spec_lines(t.meta.source)[t.line + 1]
}

impl TypeHintAt {
    /// Renders the cited lines of this provenance.
    pub fn render(&self) -> (r: String)
        requires
            spec_citable(self@),
        ensures
            r@ == spec_report(self@),
    {
        let lines = split_lines(self.meta.source());
        let m = lines.len();
        proof {
            assert(lines.deep_view().len() == lines@.len());
            assert(m as int == spec_lines(self@.meta.source).len());
            assert(self.line + 1 < m);
        }
        let curr_line = lines[self.line];
        let next_line = lines[self.line + 1];
        let mut out = String::new();
        out.append(self.meta.path());
        out.append("\n  ");
        let n1 = usize_to_dec(self.line + 1);
        out.append(n1.as_str());
        out.append("| ");
        out.append(curr_line);
        out.append("\n  ");
        let n2 = usize_to_dec(self.line + 2);
        out.append(n2.as_str());
        out.append("| ");
        out.append(next_line);
        proof {
            assert(lines.deep_view()[self.line as int] == spec_lines(self@.meta.source)[
                self.line as int
            ]);
            assert(lines.deep_view()[self.line + 1] == spec_lines(self@.meta.source)[self.line
                + 1]);
            assert(out@ =~= spec_report(self@));
        }
        out
    }
}

/// The text of a merge error: both cited provenances, parted by
/// `conflicts with:`.
pub open spec fn spec_conflict_message(e: ParseErrorV) -> Seq<char> {
    match e {
        ParseErrorV::ConflictingTypes { a, b } => "\n"@ + spec_report(a)
            + "\n\nconflicts with:\n\n"@ + spec_report(b) + "\n"@,
    }
}

/// Whether a merge error's provenances can be cited.
pub open spec fn spec_error_citable(e: ParseErrorV) -> bool {
    match e {
        ParseErrorV::ConflictingTypes { a, b } => spec_citable(a) && spec_citable(b),
    }
}

impl ParseError {
    /// Renders the error for a human reader, citing both provenances.
    pub fn message(&self) -> (r: String)
        requires
            spec_error_citable(self@),
        ensures
            r@ == spec_conflict_message(self@),
    {
        match self {
            ParseError::ConflictingTypes { a, b } => {
                let mut out = String::new();
                out.append("\n");
                let ra = a.render();
                out.append(ra.as_str());
                out.append("\n\nconflicts with:\n\n");
                let rb = b.render();
                out.append(rb.as_str());
                out.append("\n");
                proof {
                    assert(out@ =~= spec_conflict_message(self@));
                }
                out
            },
        }
    }
}

/// The mathematical value of a registry entry.
pub struct EntryV {
    pub key: Seq<char>,
    pub type_hint: Option<(HintV, int)>,
    pub meta: MetaV,
}

/// The record the registry keeps per key: the variable and the document
/// it came from. When the entry carries a hint, `meta` is the document
/// that hint was written in.
#[derive(Debug)]
pub struct RegistryEntry {
    pub variable: Variable,
    pub meta: Metadata,
}

impl View for RegistryEntry {
    type V = EntryV;

    open spec fn view(&self) -> EntryV {
        EntryV { key: self.variable.key@, type_hint: self.variable@.type_hint, meta: self.meta@ }
    }
}

impl DeepView for RegistryEntry {
    type V = EntryV;

    open spec fn deep_view(&self) -> EntryV {
        self.view()
    }
}

/// The first registry position whose key is not below `key`, looking at
/// or after `i`.
pub open spec fn reg_lb_from(reg: Seq<EntryV>, key: Seq<char>, i: int) -> int
    decreases reg.len() - i,
{
    if i < 0 || i >= reg.len() {
        reg.len() as int
    } else if !char_seq_lt(reg[i].key, key) {
        i
    } else {
        reg_lb_from(reg, key, i + 1)
    }
}

/// The position a key has, or would take, in the key-ordered registry.
pub open spec fn reg_lb(reg: Seq<EntryV>, key: Seq<char>) -> int {
    reg_lb_from(reg, key, 0)
}

pub proof fn lemma_reg_lb_is(reg: Seq<EntryV>, key: Seq<char>, i: int, k: int)
    requires
        0 <= i <= k <= reg.len(),
        forall|j: int| i <= j < k ==> char_seq_lt(reg[j].key, key),
        k == reg.len() || !char_seq_lt(reg[k].key, key),
    ensures
        reg_lb_from(reg, key, i) == k,
    decreases k - i,
{
    if i < k {
        lemma_reg_lb_is(reg, key, i + 1, k);
    }
}

/// One step of the merge: the incoming variable against the registry.
/// A fresh key is inserted at its ordered position. For a known key, two
/// equal hints or a hintless stored entry let the incoming record replace
/// the stored one; a hintless incoming record leaves the stored hint in
/// place; and two different hints abort with both provenances.
pub open spec fn spec_merge_step(reg: Seq<EntryV>, v: VarV, m: MetaV) -> Result<
    Seq<EntryV>,
    ParseErrorV,
> {
    let i = reg_lb(reg, v.key);
    let e = EntryV { key: v.key, type_hint: v.type_hint, meta: m };
    if 0 <= i < reg.len() && reg[i].key == v.key {
        match (reg[i].type_hint, v.type_hint) {
            (Some((h1, l1)), Some((h2, l2))) => if h1 != h2 {
                Err(
                    ParseErrorV::ConflictingTypes {
                        a: ThAtV { th: h1, line: l1, meta: reg[i].meta },
                        b: ThAtV { th: h2, line: l2, meta: m },
                    },
                )
            } else {
                Ok(reg.update(i, e))
            },
            (Some(_), None) => Ok(reg),
            (None, _) => Ok(reg.update(i, e)),
        }
    } else {
        Ok(reg.insert(i, e))
    }
}

/// Folds one document's variables into the registry, left to right,
/// stopping at the first conflict.
pub open spec fn spec_merge_vars(reg: Seq<EntryV>, vars: Seq<VarV>, m: MetaV) -> Result<
    Seq<EntryV>,
    ParseErrorV,
>
    decreases vars.len(),
{
    if vars.len() == 0 {
        Ok(reg)
    } else {
        match spec_merge_step(reg, vars[0], m) {
            Err(e) => Err(e),
            Ok(r2) => spec_merge_vars(r2, vars.drop_first(), m),
        }
    }
}

/// Folds whole documents into the registry, in the order supplied.
pub open spec fn spec_merge_docs(reg: Seq<EntryV>, docs: Seq<(Seq<VarV>, MetaV)>) -> Result<
    Seq<EntryV>,
    ParseErrorV,
>
    decreases docs.len(),
{
    if docs.len() == 0 {
        Ok(reg)
    } else {
        match spec_merge_vars(reg, docs[0].0, docs[0].1) {
            Err(e) => Err(e),
            Ok(r2) => spec_merge_docs(r2, docs.drop_first()),
        }
    }
}

/// What merging the documents yields: the registry, or the first
/// conflict found.
pub open spec fn spec_merge(docs: Seq<(Seq<VarV>, MetaV)>) -> Result<Seq<EntryV>, ParseErrorV> {
    spec_merge_docs(Seq::empty(), docs)
}

/// The merge in the middle of a document: the rest of its variables,
/// then the remaining documents.
pub open spec fn spec_merge_cont(
    reg: Seq<EntryV>,
    vars: Seq<VarV>,
    m: MetaV,
    docs: Seq<(Seq<VarV>, MetaV)>,
) -> Result<Seq<EntryV>, ParseErrorV> {
    match spec_merge_vars(reg, vars, m) {
        Err(e) => Err(e),
        Ok(r2) => spec_merge_docs(r2, docs),
    }
}

/// Merges every document's variables into one key-ordered registry,
/// reporting the first type conflict with both provenances.
pub fn merge(docs: &Vec<(Vec<Variable>, Metadata)>) -> (r: Result<
    Vec<RegistryEntry>,
    ParseError,
>)
    ensures
        match r {
            Ok(reg) => spec_merge(docs.deep_view()) == Ok::<_, ParseErrorV>(reg.deep_view()),
            Err(e) => spec_merge(docs.deep_view()) == Err::<Seq<EntryV>, _>(e@),
        },
{
    let ghost docs0 = docs.deep_view();
    let mut reg: Vec<RegistryEntry> = Vec::new();
    let nd = docs.len();
    let mut d: usize = 0;
    proof {
        assert(reg.deep_view() =~= Seq::<EntryV>::empty());
        assert(docs0.skip(0) =~= docs0);
    }
    while d < nd
        invariant
            nd == docs@.len(),
            docs.deep_view() == docs0,
            d <= nd,
            spec_merge(docs0) == spec_merge_docs(reg.deep_view(), docs0.skip(d as int)),
        decreases nd - d,
    {
        let doc = &docs[d];
        let vars = &doc.0;
        let meta = &doc.1;
        proof {
            assert(docs0[d as int] == (vars.deep_view(), meta@));
            assert(docs0.skip(d as int).drop_first() =~= docs0.skip(d as int + 1));
            assert(docs0.skip(d as int)[0] == docs0[d as int]);
        }
        let nv = vars.len();
        let mut w: usize = 0;
        proof {
            assert(vars.deep_view().skip(0) =~= vars.deep_view());
        }
        while w < nv
            invariant
                nd == docs@.len(),
                docs.deep_view() == docs0,
                d < nd,
                nv == vars@.len(),
                vars.deep_view() == docs0[d as int].0,
                meta@ == docs0[d as int].1,
                w <= nv,
                spec_merge(docs0) == spec_merge_cont(
                    reg.deep_view(),
                    vars.deep_view().skip(w as int),
                    meta@,
                    docs0.skip(d as int + 1),
                ),
            decreases nv - w,
        {
            let ghost reg_before = reg.deep_view();
            let var = &vars[w];
            let ghost v = var@;
            proof {
                assert(vars.deep_view().skip(w as int)[0] == v);
                assert(vars.deep_view().skip(w as int).drop_first() =~= vars.deep_view().skip(
                    w as int + 1,
                ));
            }

            let n = reg.len();
            let mut i: usize = 0;
            loop
                invariant
                    n == reg@.len(),
                    reg.deep_view() == reg_before,
                    v == var@,
                    i <= n,
                    forall|j: int| 0 <= j < i ==> char_seq_lt(reg.deep_view()[j].key, v.key),
                ensures
                    i <= n,
                    forall|j: int| 0 <= j < i ==> char_seq_lt(reg.deep_view()[j].key, v.key),
                    i == n || !char_seq_lt(reg.deep_view()[i as int].key, v.key),
                decreases n - i,
            {
                if i >= n {
                    break ;
                }
                proof {
                    assert(reg.deep_view()[i as int].key == reg@[i as int].variable.key@);
                }
                if str_lt(reg[i].variable.key.as_str(), var.key.as_str()) {
                    i += 1;
                } else {
                    break ;
                }
            }
            proof {
                lemma_reg_lb_is(reg.deep_view(), v.key, 0, i as int);
                assert(reg_lb(reg.deep_view(), v.key) == i as int);
                if i < n {
                    assert(reg.deep_view()[i as int].key == reg@[i as int].variable.key@);
                }
            }
            let found = i < n && str_eq(reg[i].variable.key.as_str(), var.key.as_str());
            if found {
                let has_conflict = match (&reg[i].variable.type_hint, &var.type_hint) {
                    (Some(lt), Some(rt)) => lt.0 != rt.0,
                    _ => false,
                };
                if has_conflict {
                    let stored = reg.remove(i);
                    proof {
                        assert(stored@ == reg_before[i as int]);
                    }
                    let (sth, sline) = match stored.variable.type_hint {
                        Some(p) => p,
                        None => vstd::pervasive::unreached(),
                    };
                    let (ith, iline) = match &var.type_hint {
                        Some((th, l)) => (th.clone(), *l),
                        None => vstd::pervasive::unreached(),
                    };
                    let err = ParseError::ConflictingTypes {
                        a: TypeHintAt { th: sth, line: sline, meta: stored.meta },
                        b: TypeHintAt { th: ith, line: iline, meta: meta.clone() },
                    };
                    proof {
                        assert(spec_merge_step(reg_before, v, meta@) == Err::<Seq<EntryV>, _>(
                            err@,
                        ));
                        assert(spec_merge(docs0) == Err::<Seq<EntryV>, _>(err@));
                    }
                    return Err(err);
                }
                let keep_stored = reg[i].variable.type_hint.is_some() && var.type_hint.is_none();
                if !keep_stored {
                    let entry = RegistryEntry { variable: var.clone(), meta: meta.clone() };
                    let ghost ev = entry@;
                    reg.remove(i);
                    reg.insert(i, entry);
                    proof {
                        assert(reg.deep_view() =~= reg_before.update(i as int, ev));
                        assert(spec_merge_step(reg_before, v, meta@) == Ok::<_, ParseErrorV>(
                            reg.deep_view(),
                        ));
                    }
                } else {
                    proof {
                        assert(spec_merge_step(reg_before, v, meta@) == Ok::<_, ParseErrorV>(
                            reg.deep_view(),
                        ));
                    }
                }
            } else {
                let entry = RegistryEntry { variable: var.clone(), meta: meta.clone() };
                let ghost ev = entry@;
                reg.insert(i, entry);
                proof {
                    assert(reg.deep_view() =~= reg_before.insert(i as int, ev));
                    assert(spec_merge_step(reg_before, v, meta@) == Ok::<_, ParseErrorV>(
                        reg.deep_view(),
                    ));
                }
            }
            w += 1;
        }
        proof {
            assert(vars.deep_view().skip(nv as int) =~= Seq::<VarV>::empty());
        }
        d += 1;
    }
    proof {
        assert(docs0.skip(nd as int) =~= Seq::<(Seq<VarV>, MetaV)>::empty());
        assert(spec_merge(docs0) == Ok::<_, ParseErrorV>(reg.deep_view()));
    }
    Ok(reg)
}

/// The validator expression a hint maps to. An absent hint is the
/// permissive string validator.
pub open spec fn spec_validator(h: Option<(HintV, int)>) -> Seq<char> {
    match h {
        None => "z.string()"@,
        Some((HintV::String, _)) => "z.string()"@,
        Some((HintV::Number, _)) => "z.coerce.number()"@,
        Some((HintV::Boolean, _)) => "z.coerce.boolean()"@,
        Some((HintV::Union(ls), _)) => "z.enum(["@ + spec_join(ls.map_values(p_quoted()), ","@)
            + "])"@,
    }
}

/// One schema field: the key bound to its validator.
pub open spec fn spec_field_line(e: EntryV) -> Seq<char> {
    "    "@ + e.key + ": "@ + spec_validator(e.type_hint) + ","@
}

/// The schema fields of the first `n` entries belonging to the wanted
/// group: public when `want_public`, private otherwise.
pub open spec fn spec_field_lines(es: Seq<EntryV>, n: int, want_public: bool) -> Seq<Seq<char>>
    decreases n,
{
    if n <= 0 {
        Seq::empty()
    } else {
        spec_field_lines(es, n - 1, want_public) + if spec_is_public(es[n - 1].key)
            == want_public {
            seq![spec_field_line(es[n - 1])]
        } else {
            Seq::empty()
        }
    }
}

/// One row of the source-lookup table.
pub open spec fn spec_env_line(e: EntryV) -> Seq<char> {
    "   "@ + e.key + ": process.env."@ + e.key + ","@
}

/// The source-lookup rows of the first `n` entries.
pub open spec fn spec_env_lines(es: Seq<EntryV>, n: int) -> Seq<Seq<char>>
    decreases n,
{
    if n <= 0 {
        Seq::empty()
    } else {
        spec_env_lines(es, n - 1) + seq![spec_env_line(es[n - 1])]
    }
}

/// The import line of the schema module.
pub open spec fn spec_zod_import() -> Seq<char> {
    "import z from \"zod\";"@
}

/// The static runtime part of the schema module: the two guarded
/// accessors over the schema groups.
pub open spec fn spec_zod_runtime() -> Seq<char> {
    "export const clientEnv: z.infer<z.ZodObject<typeof clientEnvSchemas>> = new Proxy({} as any, {\n    get(_, prop: string) {\n        if (prop in clientEnvSchemas) {\n            return clientEnvSchemas[prop as keyof typeof clientEnvSchemas].parse(\n                processEnv[prop as keyof typeof processEnv],\n            );\n        }\n        throw new Error(prop + \" is not defined for client side environment variables.\");\n    },\n});\n\nexport const serverEnv: z.infer<z.ZodObject<typeof serverEnvSchemas>> = new Proxy({} as any, {\n    get(_, prop: string) {\n        if (prop in serverEnvSchemas) {\n            return serverEnvSchemas[prop as keyof typeof serverEnvSchemas].parse(\n                processEnv[prop as keyof typeof processEnv],\n            );\n        }\n        throw new Error(prop + \" is not defined for server side environment variables.\");\n    },\n});"@
}

/// The whole schema module for a registry: the public group, the private
/// group spreading the public one, the runtime accessors, and the
/// source-lookup table.
pub open spec fn spec_zod_output(es: Seq<EntryV>) -> Seq<char> {
    "\n"@ + spec_zod_import() + "\n\nconst clientEnvSchemas = {\n"@ + spec_join(
        spec_field_lines(es, es.len() as int, true),
        "\n"@,
    ) + "\n}\n\nconst serverEnvSchemas = {\n    ...clientEnvSchemas,\n"@ + spec_join(
        spec_field_lines(es, es.len() as int, false),
        "\n"@,
    ) + "\n}\n\n"@ + spec_zod_runtime() + "\n\nconst processEnv = {\n"@ + spec_join(
        spec_env_lines(es, es.len() as int),
        "\n"@,
    ) + "\n}\n               "@
}

/// The validator expression for a hint.
fn validator_text(h: &Option<(TypeHint, usize)>) -> (r: String)
    ensures
        r@ == spec_validator(match h {
            Some((th, l)) => Some((th@, *l as int)),
            None => None,
        }),
{
    match h {
        None => String::from_str("z.string()"),
        Some((TypeHint::String, _)) => String::from_str("z.string()"),
        Some((TypeHint::Number, _)) => String::from_str("z.coerce.number()"),
        Some((TypeHint::Boolean, _)) => String::from_str("z.coerce.boolean()"),
        Some((TypeHint::Union(ls), _)) => {
            let mut qs: Vec<String> = Vec::new();
            let n = ls.len();
            let mut i: usize = 0;
            while i < n
                invariant
                    n == ls@.len(),
                    i <= n,
                    qs.deep_view() =~= ls.deep_view().map_values(p_quoted()).take(i as int),
                decreases n - i,
            {
                proof {
                    reveal_strlit("'");
                }
                let q = String::from_str("'").concat(ls[i].as_str()).concat("'");
                proof {
                    assert(q@ =~= super::typehint_parser::quoted(ls.deep_view()[i as int]));
                }
                let ghost old_dv = qs.deep_view();
                qs.push(q);
                proof {
                    assert(qs.deep_view() =~= old_dv.push(q@));
                    assert(qs.deep_view() =~= ls.deep_view().map_values(p_quoted()).take(
                        i + 1 as int,
                    ));
                }
                i += 1;
            }
            proof {
                assert(ls.deep_view().map_values(p_quoted()).take(n as int) =~= ls.deep_view()
                    .map_values(p_quoted()));
            }
            let mut out = String::from_str("z.enum([");
            let inner = crate::strutil::join(&qs, ",");
            out.append(inner.as_str());
            out.append("])");
            out
        },
    }
}

/// Renders the registry as the schema module.
fn render_zod(reg: &Vec<RegistryEntry>) -> (r: String)
    ensures
        r@ == spec_zod_output(reg.deep_view()),
{
    let ghost es = reg.deep_view();
    let n = reg.len();
    let mut pub_lines: Vec<String> = Vec::new();
    let mut priv_lines: Vec<String> = Vec::new();
    let mut env_lines: Vec<String> = Vec::new();
    let mut i: usize = 0;
    while i < n
        invariant
            n == reg@.len(),
            reg.deep_view() == es,
            i <= n,
            pub_lines.deep_view() == spec_field_lines(es, i as int, true),
            priv_lines.deep_view() == spec_field_lines(es, i as int, false),
            env_lines.deep_view() == spec_env_lines(es, i as int),
        decreases n - i,
    {
        let e = &reg[i];
        proof {
            assert(e@ == es[i as int]);
        }
        let mut field = String::from_str("    ");
        field.append(e.variable.key.as_str());
        field.append(": ");
        let v = validator_text(&e.variable.type_hint);
        field.append(v.as_str());
        field.append(",");
        proof {
            assert(field@ =~= spec_field_line(es[i as int]));
        }
        if e.variable.is_public() {
            let ghost old_dv = pub_lines.deep_view();
            pub_lines.push(field);
            proof {
                assert(pub_lines.deep_view() =~= old_dv + seq![spec_field_line(es[i as int])]);
                assert(priv_lines.deep_view() + Seq::<Seq<char>>::empty()
                    =~= priv_lines.deep_view());
            }
        } else {
            let ghost old_dv = priv_lines.deep_view();
            priv_lines.push(field);
            proof {
                assert(priv_lines.deep_view() =~= old_dv + seq![spec_field_line(es[i as int])]);
                assert(pub_lines.deep_view() + Seq::<Seq<char>>::empty()
                    =~= pub_lines.deep_view());
            }
        }
        let mut env = String::from_str("   ");
        env.append(e.variable.key.as_str());
        env.append(": process.env.");
        env.append(e.variable.key.as_str());
        env.append(",");
        proof {
            assert(env@ =~= spec_env_line(es[i as int]));
        }
        let ghost old_env = env_lines.deep_view();
        env_lines.push(env);
        proof {
            assert(env_lines.deep_view() =~= old_env + seq![spec_env_line(es[i as int])]);
        }
        i += 1;
    }

    let mut out = String::from_str("\n");
    out.append("import z from \"zod\";");
    out.append("\n\nconst clientEnvSchemas = {\n");
    let j1 = crate::strutil::join(&pub_lines, "\n");
    out.append(j1.as_str());
    out.append("\n}\n\nconst serverEnvSchemas = {\n    ...clientEnvSchemas,\n");
    let j2 = crate::strutil::join(&priv_lines, "\n");
    out.append(j2.as_str());
    out.append("\n}\n\n");
    out.append(
        "export const clientEnv: z.infer<z.ZodObject<typeof clientEnvSchemas>> = new Proxy({} as any, {\n    get(_, prop: string) {\n        if (prop in clientEnvSchemas) {\n            return clientEnvSchemas[prop as keyof typeof clientEnvSchemas].parse(\n                processEnv[prop as keyof typeof processEnv],\n            );\n        }\n        throw new Error(prop + \" is not defined for client side environment variables.\");\n    },\n});\n\nexport const serverEnv: z.infer<z.ZodObject<typeof serverEnvSchemas>> = new Proxy({} as any, {\n    get(_, prop: string) {\n        if (prop in serverEnvSchemas) {\n            return serverEnvSchemas[prop as keyof typeof serverEnvSchemas].parse(\n                processEnv[prop as keyof typeof processEnv],\n            );\n        }\n        throw new Error(prop + \" is not defined for server side environment variables.\");\n    },\n});",
    );
    out.append("\n\nconst processEnv = {\n");
    let j3 = crate::strutil::join(&env_lines, "\n");
    out.append(j3.as_str());
    out.append("\n}\n               ");
    proof {
        assert(out@ =~= spec_zod_output(es));
    }
    out
}

/// Every hinted variable of every document cites a comment line that
/// lies, with the declaration line after it, within its own document.
pub open spec fn docs_citable(docs: Seq<(Seq<VarV>, MetaV)>) -> bool {
    forall|d: int, j: int|
        0 <= d < docs.len() && 0 <= j < docs[d].0.len() && (#[trigger] docs[d].0[j]).type_hint
            is Some ==> 0 <= (docs[d].0[j].type_hint->0).1 && (docs[d].0[j].type_hint->0).1 + 1
            < spec_lines(docs[d].1.source).len()
}

/// Every hinted registry entry cites lines within its own document.
pub open spec fn reg_citable(reg: Seq<EntryV>) -> bool {
    forall|i: int|
        0 <= i < reg.len() && (#[trigger] reg[i]).type_hint is Some ==> 0 <= (
        reg[i].type_hint->0).1 && (reg[i].type_hint->0).1 + 1 < spec_lines(
            reg[i].meta.source,
        ).len()
}

/// Whether one variable's hint cites lines within document `m`.
pub open spec fn var_citable(v: VarV, m: MetaV) -> bool {
    v.type_hint is Some ==> 0 <= (v.type_hint->0).1 && (v.type_hint->0).1 + 1 < spec_lines(
        m.source,
    ).len()
}

pub proof fn lemma_reg_lb_bounds(reg: Seq<EntryV>, key: Seq<char>, i: int)
    requires
        0 <= i <= reg.len(),
    ensures
        i <= reg_lb_from(reg, key, i) <= reg.len(),
    decreases reg.len() - i,
{
    if i < reg.len() && char_seq_lt(reg[i].key, key) {
        lemma_reg_lb_bounds(reg, key, i + 1);
    }
}

proof fn lemma_merge_step_citable(reg: Seq<EntryV>, v: VarV, m: MetaV)
    requires
        reg_citable(reg),
        var_citable(v, m),
    ensures
        match spec_merge_step(reg, v, m) {
            Ok(r2) => reg_citable(r2),
            Err(e) => spec_error_citable(e),
        },
{
    lemma_reg_lb_bounds(reg, v.key, 0);
    let i = reg_lb(reg, v.key);
    let e = EntryV { key: v.key, type_hint: v.type_hint, meta: m };
    match spec_merge_step(reg, v, m) {
        Ok(r2) => {
            assert forall|k: int|
                0 <= k < r2.len() && (#[trigger] r2[k]).type_hint is Some implies 0 <= (
            r2[k].type_hint->0).1 && (r2[k].type_hint->0).1 + 1 < spec_lines(
                r2[k].meta.source,
            ).len() by {
                if r2 == reg.insert(i, e) {
                    if k < i {
                        assert(r2[k] == reg[k]);
                    } else if k > i {
                        assert(r2[k] == reg[k - 1]);
                    }
                } else if r2 == reg.update(i, e) {
                    if k != i {
                        assert(r2[k] == reg[k]);
                    }
                }
            }
        },
        Err(_) => {},
    }
}

proof fn lemma_merge_vars_citable(reg: Seq<EntryV>, vars: Seq<VarV>, m: MetaV)
    requires
        reg_citable(reg),
        forall|j: int| 0 <= j < vars.len() ==> var_citable(#[trigger] vars[j], m),
    ensures
        match spec_merge_vars(reg, vars, m) {
            Ok(r2) => reg_citable(r2),
            Err(e) => spec_error_citable(e),
        },
    decreases vars.len(),
{
    if vars.len() > 0 {
        lemma_merge_step_citable(reg, vars[0], m);
        match spec_merge_step(reg, vars[0], m) {
            Ok(r2) => {
                lemma_merge_vars_citable(r2, vars.drop_first(), m);
            },
            Err(_) => {},
        }
    }
}

proof fn lemma_merge_docs_citable(reg: Seq<EntryV>, docs: Seq<(Seq<VarV>, MetaV)>)
    requires
        reg_citable(reg),
        docs_citable(docs),
    ensures
        match spec_merge_docs(reg, docs) {
            Ok(r2) => reg_citable(r2),
            Err(e) => spec_error_citable(e),
        },
    decreases docs.len(),
{
    if docs.len() > 0 {
        assert forall|j: int| 0 <= j < docs[0].0.len() implies var_citable(
            #[trigger] docs[0].0[j],
            docs[0].1,
        ) by {}
        lemma_merge_vars_citable(reg, docs[0].0, docs[0].1);
        match spec_merge_vars(reg, docs[0].0, docs[0].1) {
            Ok(r2) => {
                assert(docs_citable(docs.drop_first())) by {
                    assert forall|d: int, j: int|
                        0 <= d < docs.drop_first().len() && 0 <= j < docs.drop_first()[d].0.len()
                            && (#[trigger] docs.drop_first()[d].0[j]).type_hint
                            is Some implies 0 <= (docs.drop_first()[d].0[j].type_hint->0).1 && (
                    docs.drop_first()[d].0[j].type_hint->0).1 + 1 < spec_lines(
                        docs.drop_first()[d].1.source,
                    ).len() by {
                        assert(docs.drop_first()[d] == docs[d + 1]);
                    }
                }
                lemma_merge_docs_citable(r2, docs.drop_first());
            },
            Err(_) => {},
        }
    }
}

/// A merge error always cites lines that lie within their documents, as
/// long as every incoming hint does.
pub proof fn lemma_merge_citable(docs: Seq<(Seq<VarV>, MetaV)>)
    requires
        docs_citable(docs),
    ensures
        spec_merge(docs) is Err ==> spec_error_citable(spec_merge(docs)->Err_0),
{
    assert(reg_citable(Seq::<EntryV>::empty()));
    lemma_merge_docs_citable(Seq::empty(), docs);
}

/// The registry invariant: keys strictly ascending, so every key stands
/// exactly once.
pub open spec fn reg_ascending(reg: Seq<EntryV>) -> bool {
    forall|i: int, j: int|
        0 <= i < j < reg.len() ==> char_seq_lt(#[trigger] reg[i].key, #[trigger] reg[j].key)
}

proof fn lemma_merge_step_sorted(reg: Seq<EntryV>, v: VarV, m: MetaV)
    requires
        reg_ascending(reg),
    ensures
        spec_merge_step(reg, v, m) is Ok ==> reg_ascending(spec_merge_step(reg, v, m)->Ok_0),
{
    lemma_reg_lb_bounds(reg, v.key, 0);
    lemma_reg_lb_chars(reg, v.key, 0);
    let i = reg_lb(reg, v.key);
    let e = EntryV { key: v.key, type_hint: v.type_hint, meta: m };
    if 0 <= i < reg.len() && reg[i].key == v.key {
        match spec_merge_step(reg, v, m) {
            Ok(r2) => {
                if r2 != reg {
                    assert(r2 == reg.update(i, e));
                    assert forall|a: int, b: int| 0 <= a < b < r2.len() implies char_seq_lt(
                        #[trigger] r2[a].key,
                        #[trigger] r2[b].key,
                    ) by {
                        assert(r2[a].key == reg[a].key);
                        assert(r2[b].key == reg[b].key);
                    }
                }
            },
            Err(_) => {},
        }
    } else {
        let r2 = reg.insert(i, e);
        assert forall|a: int, b: int| 0 <= a < b < r2.len() implies char_seq_lt(
            #[trigger] r2[a].key,
            #[trigger] r2[b].key,
        ) by {
            if a < i && b == i {
                assert(r2[a].key == reg[a].key);
                assert(char_seq_lt(reg[a].key, v.key));
            } else if a == i && b > i {
                assert(r2[b].key == reg[b - 1].key);
                assert(b - 1 >= i);
                assert(!char_seq_lt(reg[b - 1].key, v.key)) by {
                    if b - 1 > i && char_seq_lt(reg[b - 1].key, v.key) {
                        assert(char_seq_lt(reg[i].key, reg[b - 1].key));
                        crate::strutil::lemma_char_seq_lt_trans(
                            reg[i].key,
                            reg[b - 1].key,
                            v.key,
                        );
                    }
                }
                assert(reg[b - 1].key != v.key) by {
                    if b - 1 > i && reg[b - 1].key == v.key {
                        assert(char_seq_lt(reg[i].key, reg[b - 1].key));
                        assert(!char_seq_lt(reg[i].key, v.key));
                    }
                }
                crate::strutil::lemma_char_seq_lt_total(v.key, reg[b - 1].key);
            } else if a < i && b > i {
                assert(r2[a].key == reg[a].key && r2[b].key == reg[b - 1].key);
                if a < b - 1 {
                    assert(char_seq_lt(reg[a].key, reg[b - 1].key));
                } else {
                    assert(char_seq_lt(reg[a].key, v.key));
                    assert(!char_seq_lt(reg[b - 1].key, v.key));
                    assert(reg[b - 1].key != v.key);
                    crate::strutil::lemma_char_seq_lt_total(v.key, reg[b - 1].key);
                    crate::strutil::lemma_char_seq_lt_trans(reg[a].key, v.key, reg[b - 1].key);
                }
            } else if b < i {
                assert(r2[a].key == reg[a].key && r2[b].key == reg[b].key);
            } else if a > i {
                assert(r2[a].key == reg[a - 1].key && r2[b].key == reg[b - 1].key);
            }
        }
    }
}

proof fn lemma_reg_lb_chars(reg: Seq<EntryV>, key: Seq<char>, i: int)
    requires
        0 <= i <= reg.len(),
    ensures
        forall|j: int| i <= j < reg_lb_from(reg, key, i) ==> char_seq_lt(#[trigger] reg[j].key, key),
        reg_lb_from(reg, key, i) < reg.len() ==> !char_seq_lt(
            reg[reg_lb_from(reg, key, i)].key,
            key,
        ),
    decreases reg.len() - i,
{
    if i < reg.len() && char_seq_lt(reg[i].key, key) {
        lemma_reg_lb_chars(reg, key, i + 1);
    }
}

proof fn lemma_merge_vars_sorted(reg: Seq<EntryV>, vars: Seq<VarV>, m: MetaV)
    requires
        reg_ascending(reg),
    ensures
        spec_merge_vars(reg, vars, m) is Ok ==> reg_ascending(spec_merge_vars(reg, vars, m)->Ok_0),
    decreases vars.len(),
{
    if vars.len() > 0 {
        lemma_merge_step_sorted(reg, vars[0], m);
        match spec_merge_step(reg, vars[0], m) {
            Ok(r2) => {
                lemma_merge_vars_sorted(r2, vars.drop_first(), m);
            },
            Err(_) => {},
        }
    }
}

proof fn lemma_merge_docs_sorted(reg: Seq<EntryV>, docs: Seq<(Seq<VarV>, MetaV)>)
    requires
        reg_ascending(reg),
    ensures
        spec_merge_docs(reg, docs) is Ok ==> reg_ascending(spec_merge_docs(reg, docs)->Ok_0),
    decreases docs.len(),
{
    if docs.len() > 0 {
        lemma_merge_vars_sorted(reg, docs[0].0, docs[0].1);
        match spec_merge_vars(reg, docs[0].0, docs[0].1) {
            Ok(r2) => {
                lemma_merge_docs_sorted(r2, docs.drop_first());
            },
            Err(_) => {},
        }
    }
}

/// The merged registry keeps its keys strictly ascending: a key never
/// appears twice, and iteration order is lexicographic, independent of
/// insertion order.
pub proof fn lemma_merge_registry_ordered(docs: Seq<(Seq<VarV>, MetaV)>)
    ensures
        spec_merge(docs) is Ok ==> reg_ascending(spec_merge(docs)->Ok_0),
{
    lemma_merge_docs_sorted(Seq::empty(), docs);
}

/// A document paired with the variables its text declares, as a mapping
/// value shared by every use site.
pub open spec fn p_doc() -> spec_fn(MetaV) -> (Seq<VarV>, MetaV) {
    |m: MetaV| (spec_variables(m.source), m)
}

/// The extraction of every document, in order.
pub open spec fn spec_docs_of(sources: Seq<MetaV>) -> Seq<(Seq<VarV>, MetaV)> {
    sources.map_values(p_doc())
}

/// What generating the schema module from the documents yields: the
/// rendered module, or the first type conflict.
pub open spec fn spec_zod_from_texts(sources: Seq<MetaV>) -> Result<Seq<char>, ParseErrorV> {
    match spec_merge(spec_docs_of(sources)) {
        Err(e) => Err(e),
        Ok(reg) => Ok(spec_zod_output(reg)),
    }
}

/// Generates the schema module from the documents: extracts every
/// document's variables, merges them into one key-ordered registry, and
/// renders it; the first cross-document type conflict aborts with both
/// provenances.
pub fn generate_zod_schema_from_texts(sources: &Vec<Metadata>) -> (r: Result<String, ParseError>)
    ensures
        match r {
            Ok(out) => spec_zod_from_texts(sources.deep_view()) == Ok::<_, ParseErrorV>(out@),
            Err(e) => spec_zod_from_texts(sources.deep_view()) == Err::<Seq<char>, _>(e@)
                && spec_error_citable(e@),
        },
{
    let ghost svs = sources.deep_view();
    let mut docs: Vec<(Vec<Variable>, Metadata)> = Vec::new();
    let ns = sources.len();
    let mut k: usize = 0;
    while k < ns
        invariant
            ns == sources@.len(),
            sources.deep_view() == svs,
            k <= ns,
            docs.deep_view() =~= spec_docs_of(svs).take(k as int),
        decreases ns - k,
    {
        let meta = &sources[k];
        proof {
            assert(meta@ == svs[k as int]);
        }
        let vars = parse_variables_with_type_hints(meta.source());
        let ghost old_dv = docs.deep_view();
        docs.push((vars, meta.clone()));
        proof {
            assert(docs.deep_view() =~= old_dv.push((spec_variables(svs[k as int].source), svs[
                k as int
            ])));
            assert(spec_docs_of(svs)[k as int] == (spec_variables(svs[k as int].source), svs[
                k as int
            ]));
            assert(docs.deep_view() =~= spec_docs_of(svs).take(k + 1 as int));
        }
        k += 1;
    }
    proof {
        assert(spec_docs_of(svs).take(ns as int) =~= spec_docs_of(svs));
        assert(docs_citable(spec_docs_of(svs))) by {
            assert forall|d: int, j: int|
                0 <= d < spec_docs_of(svs).len() && 0 <= j < spec_docs_of(svs)[d].0.len() && (
                #[trigger] spec_docs_of(svs)[d].0[j]).type_hint is Some implies 0 <= (
            spec_docs_of(svs)[d].0[j].type_hint->0).1 && (
            spec_docs_of(svs)[d].0[j].type_hint->0).1 + 1 < spec_lines(
                spec_docs_of(svs)[d].1.source,
            ).len() by {
                assert(spec_docs_of(svs)[d].0 == spec_variables(svs[d].source));
                super::parse::lemma_variables_citable(svs[d].source);
            }
        }
        lemma_merge_citable(spec_docs_of(svs));
    }
    match merge(&docs) {
        Err(e) => Err(e),
        Ok(reg) => Ok(render_zod(&reg)),
    }
}

} // verus!



