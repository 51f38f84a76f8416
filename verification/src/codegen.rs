//! The rename exporter: renders a finished registry as a textual rename
//! table, as a compile-time-constant lookup map, or as a source-code fragment
//! declaring either of those, optionally bound to a named static variable.

use vstd::prelude::*;

use crate::import::{canonical_of, NameMapping, NameMappings, NameMappingView};
use crate::strset::{lemma_lex_min_unique, lex_min_of, min_index, str_set};

verus! {

/// The recoverable failures of the exporter's source-rendering step.
#[derive(Debug, Clone, Copy, PartialEq, Eq, Structural)]
pub enum CodegenError {
    /// The requested variable name is not an identifier.
    InvalidVariableName,
    /// Two mappings resolve to the same host name, so no lookup map can hold
    /// both.
    DuplicateRustName,
    /// The rendered text was rejected by the token parser.
    TokenParse,
}

/// The exported foreign name of one mapping: the least alias when the type is
/// anonymous or when aliases are preferred and one exists; otherwise the
/// canonical foreign name; nothing when no candidate exists at all.
pub open spec fn resolved_of(m: NameMappingView, force_aliases_use: bool) -> Option<Seq<char>> {
    let has_alias = exists|x: Seq<char>| m.aliases.contains(x);
    if m.c_name is None || (force_aliases_use && has_alias) {
        if has_alias {
            Option::Some(lex_min_of(m.aliases))
        } else {
            Option::None
        }
    } else {
        match m.c_name {
            Option::Some(c) => Option::Some(canonical_of(c, m.kind)),
            Option::None => Option::None,
        }
    }
}

/// A mapping no rename can be exported for: anonymous with no known alias.
pub open spec fn unresolvable(m: NameMappingView) -> bool {
    m.c_name is None && !(exists|x: Seq<char>| m.aliases.contains(x))
}

/// The rename-table line of one mapping, or nothing when it is unresolvable.
pub open spec fn line_text(m: NameMappingView, force_aliases_use: bool) -> Seq<char> {
    match resolved_of(m, force_aliases_use) {
        Option::None => Seq::empty(),
        Option::Some(n) => "\""@ + m.rust_name + "\" = \""@ + n + "\"\n"@,
    }
}

/// The rename table of the given entries, one line per resolvable mapping, in
/// entry order.
pub open spec fn table_text(
    entries: Seq<(usize, NameMappingView)>,
    force_aliases_use: bool,
) -> Seq<char>
    decreases entries.len(),
{
    if entries.len() == 0 {
        Seq::empty()
    } else {
        table_text(entries.drop_last(), force_aliases_use) + line_text(
            entries.last().1,
            force_aliases_use,
        )
    }
}

/// How many of the entries are unresolvable.
pub open spec fn unresolved_total(entries: Seq<(usize, NameMappingView)>) -> nat
    decreases entries.len(),
{
    if entries.len() == 0 {
        0
    } else {
        unresolved_total(entries.drop_last()) + if unresolvable(entries.last().1) {
            1nat
        } else {
            0nat
        }
    }
}

/// The key/value pairs handed to the lookup-map builder: the host name, and
/// the resolved foreign name wrapped in string-literal quotes.
pub open spec fn static_entries(
    entries: Seq<(usize, NameMappingView)>,
    force_aliases_use: bool,
) -> Seq<(Seq<char>, Seq<char>)>
    decreases entries.len(),
{
    if entries.len() == 0 {
        Seq::empty()
    } else {
        static_entries(entries.drop_last(), force_aliases_use) + match resolved_of(
            entries.last().1,
            force_aliases_use,
        ) {
            Option::None => Seq::empty(),
            Option::Some(n) => seq![(entries.last().1.rust_name, "\""@ + n + "\""@)],
        }
    }
}

/// The keys of `static_entries`, in the same order.
pub open spec fn static_keys(
    entries: Seq<(usize, NameMappingView)>,
    force_aliases_use: bool,
) -> Seq<Seq<char>>
    decreases entries.len(),
{
    if entries.len() == 0 {
        Seq::empty()
    } else {
        static_keys(entries.drop_last(), force_aliases_use) + match resolved_of(
            entries.last().1,
            force_aliases_use,
        ) {
            Option::None => Seq::empty(),
            Option::Some(n) => seq![entries.last().1.rust_name],
        }
    }
}

/// `static_keys` lists exactly the keys of `static_entries`.
pub proof fn lemma_static_keys(entries: Seq<(usize, NameMappingView)>, force_aliases_use: bool)
    ensures
        static_keys(entries, force_aliases_use).len() == static_entries(
            entries,
            force_aliases_use,
        ).len(),
        forall|i: int|
            0 <= i < static_keys(entries, force_aliases_use).len() ==> #[trigger] static_keys(
                entries,
                force_aliases_use,
            )[i] == static_entries(entries, force_aliases_use)[i].0,
    decreases entries.len(),
{
    if entries.len() > 0 {
        lemma_static_keys(entries.drop_last(), force_aliases_use);
    }
}

/// The resolved foreign name that the exporter uses for `m`: the least alias
/// when the type is anonymous or aliases are preferred; otherwise the
/// canonical foreign name; nothing for an anonymous type with no alias.
pub fn resolve_name(m: &NameMapping, force_aliases_use: bool) -> (r: Option<String>)
    requires
        m.wf(),
    ensures
        r matches Some(s) ==> resolved_of(m@, force_aliases_use) == Option::Some(s@),
        r is None ==> resolved_of(m@, force_aliases_use) is None,
{
    let ghost aset = str_set(m.aliases.deep_view());
    proof {
        let dv = m.aliases.deep_view();
        if dv.len() == 0 {
            assert forall|x: Seq<char>| !(#[trigger] aset.contains(x)) by {
                if dv.contains(x) {
                    let j = choose|j: int| 0 <= j < dv.len() && dv[j] == x;
                }
            }
        } else {
            assert(dv[0] == dv[0]);
            assert(dv.contains(dv[0]));
            assert(aset.contains(dv[0]));
        }
        assert(m@.aliases == aset);
        assert((exists|x: Seq<char>| m@.aliases.contains(x)) == (m.aliases.len() > 0));
    }
    if m.c_name.is_none() || (force_aliases_use && m.aliases.len() > 0) {
        if m.aliases.len() > 0 {
            let mi = min_index(&m.aliases);
            proof {
                lemma_lex_min_unique(aset, m.aliases.deep_view()[mi as int], lex_min_of(aset));
            }
            Option::Some(m.aliases[mi].clone())
        } else {
            Option::None
        }
    } else {
        match &m.c_name {
            Option::Some(c) => {
                let r = NameMapping::validated_original_name(Option::Some(c), m.kind);
                proof {
                    assert(m@.c_name == Option::Some(c@));
                }
                r
            },
            Option::None => Option::None,
        }
    }
}

impl NameMappings {
    /// Renders the rename table: one `"<host>" = "<foreign>"` line for every
    /// resolvable mapping, in discovery order; unresolvable mappings are
    /// skipped. This rendering itself cannot fail.
    pub fn to_cbindgen_toml_renames(&self, force_aliases_use: bool) -> (r: Result<
        String,
        CodegenError,
    >)
        requires
            self.wf(),
        ensures
            r matches Ok(t) && t@ == table_text(self.type_entries(), force_aliases_use),
    {
        let mut out = String::new();
        let mut i: usize = 0;
        let n = self.types_len();
        while i < n
            invariant
                self.wf(),
                i <= n,
                n == self.type_entries().len(),
                out@ == table_text(self.type_entries().take(i as int), force_aliases_use),
            decreases n - i,
        {
            let ghost entries = self.type_entries();
            proof {
                assert(entries.take(i + 1).drop_last() =~= entries.take(i as int));
                assert(entries.take(i + 1).last() == entries[i as int]);
            }
            let mapping = self.type_at(i);
            match resolve_name(mapping, force_aliases_use) {
                Option::Some(name) => {
                    out.append("\"");
                    out.append(mapping.rust_name.as_str());
                    out.append("\" = \"");
                    out.append(name.as_str());
                    out.append("\"\n");
                },
                Option::None => {},
            }
            i = i + 1;
        }
        proof {
            assert(self.type_entries().take(self.type_entries().len() as int)
                =~= self.type_entries());
        }
        Result::Ok(out)
    }

    /// How many mappings the exporter must skip: anonymous types that never
    /// received an alias. A non-zero count is a diagnostic signal only.
    pub fn unresolved_count(&self) -> (r: usize)
        requires
            self.wf(),
        ensures
            r as nat == unresolved_total(self.type_entries()),
    {
        let mut count: usize = 0;
        let mut i: usize = 0;
        let n = self.types_len();
        while i < n
            invariant
                self.wf(),
                i <= n,
                n == self.type_entries().len(),
                count <= i,
                count as nat == unresolved_total(self.type_entries().take(i as int)),
            decreases n - i,
        {
            let ghost entries = self.type_entries();
            proof {
                assert(entries.take(i + 1).drop_last() =~= entries.take(i as int));
                assert(entries.take(i + 1).last() == entries[i as int]);
            }
            let mapping = self.type_at(i);
            let ghost aset = str_set(mapping.aliases.deep_view());
            proof {
                let dv = mapping.aliases.deep_view();
                if dv.len() == 0 {
                    assert forall|x: Seq<char>| !(#[trigger] aset.contains(x)) by {
                        if dv.contains(x) {
                            let j = choose|j: int| 0 <= j < dv.len() && dv[j] == x;
                        }
                    }
                } else {
                    assert(dv[0] == dv[0]);
                    assert(dv.contains(dv[0]));
                    assert(aset.contains(dv[0]));
                }
                assert(mapping@.aliases == aset);
                assert((exists|x: Seq<char>| mapping@.aliases.contains(x)) == (mapping.aliases.len()
                    > 0));
            }
            let is_unres = mapping.c_name.is_none() && mapping.aliases.len() == 0;
            proof {
                assert(is_unres == unresolvable(entries[i as int].1));
            }
            if is_unres {
                count = count + 1;
            }
            i = i + 1;
        }
        proof {
            assert(self.type_entries().take(self.type_entries().len() as int)
                =~= self.type_entries());
        }
        count
    }

    /// Builds the compile-time lookup map: one entry per resolvable mapping,
    /// keyed by the host name, valued by the quoted foreign name. Building the
    /// collection itself cannot fail; only rendering it can (see `generate`).
    pub fn to_static_map(&self, force_aliases_use: bool) -> (r: Result<
        phf_codegen::Map<'static, String>,
        CodegenError,
    >)
        requires
            self.wf(),
        ensures
            r matches Ok(m) && phf_entries(m) == static_entries(
                self.type_entries(),
                force_aliases_use,
            ),
    {
        let mut map = phf_map_new();
        let mut i: usize = 0;
        let n = self.types_len();
        while i < n
            invariant
                self.wf(),
                i <= n,
                n == self.type_entries().len(),
                phf_entries(map) =~= static_entries(
                    self.type_entries().take(i as int),
                    force_aliases_use,
                ),
            decreases n - i,
        {
            let ghost entries = self.type_entries();
            proof {
                assert(entries.take(i + 1).drop_last() =~= entries.take(i as int));
                assert(entries.take(i + 1).last() == entries[i as int]);
            }
            let mapping = self.type_at(i);
            match resolve_name(mapping, force_aliases_use) {
                Option::Some(name) => {
                    let mut quoted = String::new();
                    quoted.append("\"");
                    quoted.append(name.as_str());
                    quoted.append("\"");
                    phf_map_entry(&mut map, mapping.rust_name.clone(), quoted);
                    proof {
                        assert(phf_entries(map) =~= static_entries(
                            entries.take(i + 1),
                            force_aliases_use,
                        ));
                    }
                },
                Option::None => {
                    proof {
                        assert(phf_entries(map) =~= static_entries(
                            entries.take(i + 1),
                            force_aliases_use,
                        ));
                    }
                },
            }
            i = i + 1;
        }
        proof {
            assert(self.type_entries().take(self.type_entries().len() as int)
                =~= self.type_entries());
        }
        Result::Ok(map)
    }

    /// Wraps the registry in a `MappingsCodegen` builder; reversible with
    /// `MappingsCodegen::mappings`.
    pub fn codegen(self) -> (r: MappingsCodegen)
        ensures
            r.spec_mappings() == self,
            r.spec_force_aliases_use() == false,
            r.spec_as_static_map() == false,
            r.spec_variable_name() is None,
    {
        MappingsCodegen {
            mappings: self,
            force_aliases_use: false,
            as_static_map: false,
            variable_name: Option::None,
        }
    }
}

/// The key/value pairs accumulated so far by a lookup-map builder, in
/// insertion order.
pub uninterp spec fn phf_entries(m: phf_codegen::Map<'static, String>) -> Seq<(Seq<char>, Seq<char>)>;

/// The source text that `phf_codegen` renders for a built map holding the
/// given entries. The crate hashes with a fixed seed, so the text is a
/// function of the entries alone.
pub uninterp spec fn phf_map_source(entries: Seq<(Seq<char>, Seq<char>)>) -> Seq<char>;

#[verifier::external_type_specification]
#[verifier::external_body]
#[verifier::reject_recursive_types(K)]
pub struct ExPhfCodegenMap<'a, K>(phf_codegen::Map<'a, K>);

/// Relies on `phf_codegen::Map::new`: the builder starts with no entries.
#[verifier::external_body]
fn phf_map_new() -> (r: phf_codegen::Map<'static, String>)
    ensures
        phf_entries(r) == Seq::<(Seq<char>, Seq<char>)>::empty(),
{
    phf_codegen::Map::new()
}

/// Relies on `phf_codegen::Map::entry`: it appends the key and the value,
/// which is later written into the rendered source exactly as provided.
#[verifier::external_body]
fn phf_map_entry(m: &mut phf_codegen::Map<'static, String>, key: String, value: String)
    ensures
        phf_entries(*final(m)) == phf_entries(*old(m)).push((key@, value@)),
{
    m.entry(key, value);
}

/// Relies on `phf_codegen::Map::build` and the `Display` of the value it
/// returns: with the generator's fixed hashing seed, the rendered map
/// construction depends on the accumulated entries alone. `build` panics on a
/// duplicate key, which the precondition rules out.
#[verifier::external_body]
fn phf_map_build_source(m: &phf_codegen::Map<'static, String>) -> (r: String)
    requires
        forall|i: int, j: int|
            0 <= i < j < phf_entries(*m).len() ==> (#[trigger] phf_entries(*m)[i]).0 != (
            #[trigger] phf_entries(*m)[j]).0,
    ensures
        r@ == phf_map_source(phf_entries(*m)),
{
    m.build().to_string()
}

#[verifier::external_type_specification]
#[verifier::external_body]
pub struct ExTokenStream(proc_macro2::TokenStream);

#[verifier::external_type_specification]
#[verifier::external_body]
pub struct ExLexError(proc_macro2::LexError);

/// Relies on `proc_macro2::TokenStream`'s `FromStr` (through `str::parse`):
/// outside a procedural-macro context its fallback lexer either tokenizes the
/// text or reports the offending input as a `LexError`.
#[verifier::external_body]
fn parse_token_stream(src: &str) -> (r: Result<proc_macro2::TokenStream, proc_macro2::LexError>) {
    src.parse::<proc_macro2::TokenStream>()
}

/// True for characters that may begin an exported variable name.
pub open spec fn is_ident_start(c: char) -> bool {
    c == '_' || ('a' as int <= c as int <= 'z' as int) || ('A' as int <= c as int <= 'Z' as int)
}

/// True for characters that may continue an exported variable name.
pub open spec fn is_ident_char(c: char) -> bool {
    is_ident_start(c) || ('0' as int <= c as int <= '9' as int)
}

/// The identifier grammar accepted for generated variable names: ASCII
/// letters, digits and underscores, not starting with a digit.
pub open spec fn is_valid_ident(s: Seq<char>) -> bool {
    s.len() > 0 && is_ident_start(s[0]) && forall|i: int| 1 <= i < s.len() ==> is_ident_char(
        #[trigger] s[i],
    )
}

/// Checks the identifier grammar of `is_valid_ident`.
fn check_ident(s: &str) -> (r: bool)
    ensures
        r == is_valid_ident(s@),
{
    let n = s.unicode_len();
    if n == 0 {
        return false;
    }
    let c0 = s.get_char(0);
    if !(c0 == '_' || (c0 as u32 >= 'a' as u32 && c0 as u32 <= 'z' as u32) || (c0 as u32
        >= 'A' as u32 && c0 as u32 <= 'Z' as u32)) {
        proof {
            assert(!is_ident_start(s@[0]));
        }
        return false;
    }
    let mut i: usize = 1;
    while i < n
        invariant
            1 <= i <= n,
            n == s@.len(),
            is_ident_start(s@[0]),
            forall|j: int| 1 <= j < i ==> is_ident_char(#[trigger] s@[j]),
        decreases n - i,
    {
        let c = s.get_char(i);
        if !(c == '_' || (c as u32 >= 'a' as u32 && c as u32 <= 'z' as u32) || (c as u32
            >= 'A' as u32 && c as u32 <= 'Z' as u32) || (c as u32 >= '0' as u32 && c as u32
            <= '9' as u32)) {
            proof {
                assert(!is_ident_char(s@[i as int]));
            }
            return false;
        }
        i = i + 1;
    }
    true
}

/// The text with every double-quote character preceded by a backslash.
pub open spec fn escaped(s: Seq<char>) -> Seq<char>
    decreases s.len(),
{
    if s.len() == 0 {
        Seq::empty()
    } else {
        escaped(s.drop_last()) + if s.last() == '"' {
            "\\\""@
        } else {
            seq![s.last()]
        }
    }
}

/// Escapes every double quote of `s` with a backslash.
fn escape_quotes(s: &str) -> (r: String)
    ensures
        r@ == escaped(s@),
{
    let mut out = String::new();
    let n = s.unicode_len();
    let mut i: usize = 0;
    proof {
        assert(s@.take(0) =~= Seq::<char>::empty());
    }
    while i < n
        invariant
            i <= n,
            n == s@.len(),
            out@ == escaped(s@.take(i as int)),
        decreases n - i,
    {
        proof {
            assert(s@.take(i + 1).drop_last() =~= s@.take(i as int));
            assert(s@.take(i + 1).last() == s@[i as int]);
        }
        let c = s.get_char(i);
        if c == '"' {
            out.append("\\\"");
        } else {
            let piece = s.substring_char(i, i + 1);
            proof {
                assert(piece@ =~= seq![s@[i as int]]);
            }
            out.append(piece);
        }
        i = i + 1;
    }
    proof {
        assert(s@.take(s@.len() as int) =~= s@);
    }
    out
}

/// The value rendered by `generate`: the lookup-map construction, or the
/// rename table as one escaped string literal.
pub open spec fn gen_value_text(
    entries: Seq<(usize, NameMappingView)>,
    force_aliases_use: bool,
    as_static_map: bool,
) -> Seq<char> {
    if as_static_map {
        phf_map_source(static_entries(entries, force_aliases_use))
    } else {
        "\""@ + escaped(table_text(entries, force_aliases_use)) + "\""@
    }
}

/// The declared type of the generated static variable.
pub open spec fn gen_type_text(as_static_map: bool) -> Seq<char> {
    if as_static_map {
        "phf::Map < & 'static str , & 'static str >"@
    } else {
        "& 'static str"@
    }
}

/// The full source text rendered by `generate`: the bare value, or a public
/// static declaration binding it to the requested variable name.
pub open spec fn gen_text(
    entries: Seq<(usize, NameMappingView)>,
    force_aliases_use: bool,
    as_static_map: bool,
    variable_name: Option<Seq<char>>,
) -> Seq<char> {
    match variable_name {
        Option::None => gen_value_text(entries, force_aliases_use, as_static_map),
        Option::Some(v) => "pub static "@ + v + " : "@ + gen_type_text(as_static_map) + " = "@
            + gen_value_text(entries, force_aliases_use, as_static_map) + " ;"@,
    }
}

/// The validation failure of a `generate` call, if any: a variable name that
/// is no identifier, or, for a lookup map, two entries sharing a host name.
pub open spec fn gen_error(
    entries: Seq<(usize, NameMappingView)>,
    force_aliases_use: bool,
    as_static_map: bool,
    variable_name: Option<Seq<char>>,
) -> Option<CodegenError> {
    if variable_name matches Some(v) && !is_valid_ident(v) {
        Option::Some(CodegenError::InvalidVariableName)
    } else if as_static_map && !static_keys(entries, force_aliases_use).no_duplicates() {
        Option::Some(CodegenError::DuplicateRustName)
    } else {
        Option::None
    }
}

/// Code builder used to export the mappings as generated source text.
pub struct MappingsCodegen {
    mappings: NameMappings,
    force_aliases_use: bool,
    as_static_map: bool,
    variable_name: Option<String>,
}

impl MappingsCodegen {
    /// The registry being exported.
    pub closed spec fn spec_mappings(&self) -> NameMappings {
        self.mappings
    }

    /// Whether aliases are preferred over canonical names.
    pub closed spec fn spec_force_aliases_use(&self) -> bool {
        self.force_aliases_use
    }

    /// Whether the output is a lookup map rather than a string literal.
    pub closed spec fn spec_as_static_map(&self) -> bool {
        self.as_static_map
    }

    /// The variable name the output is bound to, if any.
    pub closed spec fn spec_variable_name(&self) -> Option<Seq<char>> {
        match self.variable_name {
            Option::None => Option::None,
            Option::Some(s) => Option::Some(s@),
        }
    }

    /// Unwraps back into the registry, losing the builder's settings.
    pub fn mappings(self) -> (r: NameMappings)
        ensures
            r == self.spec_mappings(),
    {
        self.mappings
    }

    /// Prefer the least known alias of every type over its canonical foreign
    /// name. Off by default.
    pub fn force_aliases_use(self, yes: bool) -> (r: Self)
        ensures
            r.spec_mappings() == self.spec_mappings(),
            r.spec_force_aliases_use() == yes,
            r.spec_as_static_map() == self.spec_as_static_map(),
            r.spec_variable_name() == self.spec_variable_name(),
    {
        Self { force_aliases_use: yes, ..self }
    }

    /// Render a compile-time lookup map instead of a raw string in rename-table
    /// format. Off by default.
    pub fn as_static_map(self, yes: bool) -> (r: Self)
        ensures
            r.spec_mappings() == self.spec_mappings(),
            r.spec_force_aliases_use() == self.spec_force_aliases_use(),
            r.spec_as_static_map() == yes,
            r.spec_variable_name() == self.spec_variable_name(),
    {
        Self { as_static_map: yes, ..self }
    }

    /// The name of the static variable that receives the exported value in the
    /// generated code; an empty or absent name leaves the bare value. Absent
    /// by default.
    pub fn variable_name(self, variable_name: Option<&str>) -> (r: Self)
        ensures
            r.spec_mappings() == self.spec_mappings(),
            r.spec_force_aliases_use() == self.spec_force_aliases_use(),
            r.spec_as_static_map() == self.spec_as_static_map(),
            r.spec_variable_name() == match variable_name {
                Option::None => Option::<Seq<char>>::None,
                Option::Some(v) => if v@.len() == 0 {
                    Option::<Seq<char>>::None
                } else {
                    Option::<Seq<char>>::Some(v@)
                },
            },
    {
        let normalized: Option<String> = match variable_name {
            Option::None => Option::None,
            Option::Some(v) => {
                if v.is_empty() {
                    Option::None
                } else {
                    Option::Some(v.to_owned())
                }
            },
        };
        Self { variable_name: normalized, ..self }
    }

    /// Renders the configured output as source text: the value alone, or a
    /// `pub static` declaration of it. Fails exactly on an invalid variable
    /// name, or on duplicate host names when a lookup map was requested.
    pub fn generate_source(&self) -> (r: Result<String, CodegenError>)
        requires
            self.spec_mappings().wf(),
        ensures
            match gen_error(
                self.spec_mappings().type_entries(),
                self.spec_force_aliases_use(),
                self.spec_as_static_map(),
                self.spec_variable_name(),
            ) {
                Option::Some(e) => r == Result::<String, CodegenError>::Err(e),
                Option::None => r matches Ok(t) && t@ == gen_text(
                    self.spec_mappings().type_entries(),
                    self.spec_force_aliases_use(),
                    self.spec_as_static_map(),
                    self.spec_variable_name(),
                ),
            },
    {
        match &self.variable_name {
            Option::Some(v) => {
                if !check_ident(v.as_str()) {
                    return Result::Err(CodegenError::InvalidVariableName);
                }
            },
            Option::None => {},
        }
        let value: String;
        if self.as_static_map {
            if self.has_duplicate_static_keys() {
                return Result::Err(CodegenError::DuplicateRustName);
            }
            let map = match self.mappings.to_static_map(self.force_aliases_use) {
                Result::Ok(m) => m,
                Result::Err(e) => {
                    return Result::Err(e);
                },
            };
            proof {
                lemma_static_keys(self.mappings.type_entries(), self.force_aliases_use);
                let se = static_entries(self.mappings.type_entries(), self.force_aliases_use);
                let sk = static_keys(self.mappings.type_entries(), self.force_aliases_use);
                assert forall|x: int, y: int| 0 <= x < y < se.len() implies (#[trigger] se[x]).0
                    != (#[trigger] se[y]).0 by {
                    assert(sk[x] == se[x].0);
                    assert(sk[y] == se[y].0);
                }
            }
            value = phf_map_build_source(&map);
        } else {
            let table = match self.mappings.to_cbindgen_toml_renames(self.force_aliases_use) {
                Result::Ok(t) => t,
                Result::Err(e) => {
                    return Result::Err(e);
                },
            };
            let escaped_table = escape_quotes(table.as_str());
            let mut quoted = String::new();
            quoted.append("\"");
            quoted.append(escaped_table.as_str());
            quoted.append("\"");
            value = quoted;
        }
        match &self.variable_name {
            Option::None => Result::Ok(value),
            Option::Some(v) => {
                let mut out = String::new();
                out.append("pub static ");
                out.append(v.as_str());
                out.append(" : ");
                if self.as_static_map {
                    out.append("phf::Map < & 'static str , & 'static str >");
                } else {
                    out.append("& 'static str");
                }
                out.append(" = ");
                out.append(value.as_str());
                out.append(" ;");
                Result::Ok(out)
            },
        }
    }

    /// True when two resolvable mappings share a host name.
    fn has_duplicate_static_keys(&self) -> (r: bool)
        requires
            self.spec_mappings().wf(),
        ensures
            r == !static_keys(
                self.spec_mappings().type_entries(),
                self.spec_force_aliases_use(),
            ).no_duplicates(),
    {
        let mut keys: Vec<String> = Vec::new();
        let mut i: usize = 0;
        let n = self.mappings.types_len();
        while i < n
            invariant
                self.spec_mappings().wf(),
                i <= n,
                n == self.spec_mappings().type_entries().len(),
                keys.deep_view() =~= static_keys(
                    self.spec_mappings().type_entries().take(i as int),
                    self.spec_force_aliases_use(),
                ),
            decreases n - i,
        {
            let ghost entries = self.spec_mappings().type_entries();
            proof {
                assert(entries.take(i + 1).drop_last() =~= entries.take(i as int));
                assert(entries.take(i + 1).last() == entries[i as int]);
            }
            let mapping = self.mappings.type_at(i);
            let ghost pre = keys.deep_view();
            match resolve_name(mapping, self.force_aliases_use) {
                Option::Some(_) => {
                    keys.push(mapping.rust_name.clone());
                    proof {
                        assert(keys.deep_view() =~= pre.push(mapping@.rust_name));
                        assert(keys.deep_view() =~= static_keys(
                            entries.take(i + 1),
                            self.spec_force_aliases_use(),
                        ));
                    }
                },
                Option::None => {
                    proof {
                        assert(keys.deep_view() =~= static_keys(
                            entries.take(i + 1),
                            self.spec_force_aliases_use(),
                        ));
                    }
                },
            }
            i = i + 1;
        }
        proof {
            let entries = self.spec_mappings().type_entries();
            assert(entries.take(entries.len() as int) =~= entries);
        }
        let ghost sk = static_keys(
            self.spec_mappings().type_entries(),
            self.spec_force_aliases_use(),
        );
        proof {
            assert(keys.deep_view() =~= sk);
        }
        let mut a: usize = 0;
        let m = keys.len();
        while a < m
            invariant
                a <= m,
                m == keys.deep_view().len(),
                keys.deep_view() == sk,
                sk == static_keys(
                    self.spec_mappings().type_entries(),
                    self.spec_force_aliases_use(),
                ),
                forall|x: int, y: int|
                    0 <= x < y < keys.deep_view().len() && x < a ==> keys.deep_view()[x]
                        != keys.deep_view()[y],
            decreases m - a,
        {
            let mut b: usize = a + 1;
            while b < m
                invariant
                    a < b <= m,
                    m == keys.deep_view().len(),
                    keys.deep_view() == sk,
                    sk == static_keys(
                        self.spec_mappings().type_entries(),
                        self.spec_force_aliases_use(),
                    ),
                    forall|y: int| a < y < b ==> keys.deep_view()[a as int] != keys.deep_view()[y],
                decreases m - b,
            {
                if crate::names::str_eq(keys[a].as_str(), keys[b].as_str()) {
                    proof {
                        assert(sk[a as int] == sk[b as int]);
                        assert(!sk.no_duplicates());
                    }
                    return true;
                }
                b = b + 1;
            }
            a = a + 1;
        }
        proof {
            assert(keys.deep_view().no_duplicates());
        }
        false
    }

    /// Generates the configured output as a token stream. Validation failures
    /// are reported exactly as in `generate_source`; a text that the token
    /// parser rejects is reported as `CodegenError::TokenParse`.
    pub fn generate(&self) -> (r: Result<proc_macro2::TokenStream, CodegenError>)
        requires
            self.spec_mappings().wf(),
        ensures
            match gen_error(
                self.spec_mappings().type_entries(),
                self.spec_force_aliases_use(),
                self.spec_as_static_map(),
                self.spec_variable_name(),
            ) {
                Option::Some(e) => r matches Err(e2) && e2 == e,
                Option::None => r is Ok || (r matches Err(e2) && e2 == CodegenError::TokenParse),
            },
    {
        let src = match self.generate_source() {
            Result::Ok(s) => s,
            Result::Err(e) => {
                return Result::Err(e);
            },
        };
        match parse_token_stream(src.as_str()) {
            Result::Ok(tokens) => Result::Ok(tokens),
            Result::Err(_) => Result::Err(CodegenError::TokenParse),
        }
    }
}

} // verus!
