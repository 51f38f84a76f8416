use bindnames::codegen::{resolve_name, CodegenError};
use bindnames::export::{config_header_text, TemplateError};
use bindnames::import::{CName, CompositeKind, NameMapping, NameMappings};

#[test]
fn codegen() {
    let mappings = NameMappings::default();

    let code = mappings
        .codegen()
        .variable_name(Some("super_var"))
        .generate()
        .unwrap();

    assert_eq!(
        code.to_string(),
        "pub static super_var : & 'static str = \"\" ;"
    )
}

#[test]
fn anonymous_rename_uses_alias() {
    let mut m = NameMappings::default();
    m.new_composite_found(1, CompositeKind::Struct, None, "Anon1");
    m.new_alias_found(2, "Foo", 1);
    assert_eq!(
        m.to_cbindgen_toml_renames(false).unwrap(),
        "\"Anon1\" = \"Foo\"\n"
    );
}

#[test]
fn named_rename_prefers_canonical_then_alias() {
    let mut m = NameMappings::default();
    m.new_composite_found(2, CompositeKind::Struct, Some("Bar"), "Bar");
    m.new_alias_found(3, "BarAlias", 2);
    assert_eq!(
        m.to_cbindgen_toml_renames(false).unwrap(),
        "\"Bar\" = \"struct Bar\"\n"
    );
    assert_eq!(
        m.to_cbindgen_toml_renames(true).unwrap(),
        "\"Bar\" = \"BarAlias\"\n"
    );
}

#[test]
fn unresolvable_mapping_is_skipped_and_counted() {
    let mut m = NameMappings::default();
    m.new_composite_found(5, CompositeKind::Union, None, "Anon9");
    m.new_composite_found(2, CompositeKind::Struct, Some("Bar"), "Bar");
    let table = m.to_cbindgen_toml_renames(false).unwrap();
    assert_eq!(table, "\"Bar\" = \"struct Bar\"\n");
    assert!(!table.contains("Anon9"));
    assert_eq!(m.unresolved_count(), 1);
}

#[test]
fn empty_registry_renders_nothing() {
    let m = NameMappings::default();
    assert_eq!(m.to_cbindgen_toml_renames(false).unwrap(), "");
    assert_eq!(m.unresolved_count(), 0);
}

#[test]
fn generate_static_map_renders_phf_construction() {
    let mut m = NameMappings::default();
    m.new_composite_found(2, CompositeKind::Struct, Some("Bar"), "Bar");
    let code = m
        .codegen()
        .as_static_map(true)
        .variable_name(Some("TABLE"))
        .generate()
        .unwrap()
        .to_string();
    assert!(code.starts_with("pub static TABLE : phf :: Map"));
    assert!(code.contains(":: phf :: Map"));
    assert!(code.contains("entries"));
    assert!(code.contains("\"Bar\""));
    assert!(code.contains("\"struct Bar\""));
}

#[test]
fn generate_rejects_invalid_variable_name() {
    let m = NameMappings::default();
    let r = m.codegen().variable_name(Some("super var")).generate();
    assert_eq!(r.unwrap_err(), CodegenError::InvalidVariableName);
}

#[test]
fn generate_rejects_duplicate_host_names() {
    let mut m = NameMappings::default();
    m.new_composite_found(1, CompositeKind::Struct, Some("A"), "Same");
    m.new_composite_found(2, CompositeKind::Struct, Some("B"), "Same");
    let r = m.codegen().as_static_map(true).generate();
    assert_eq!(r.unwrap_err(), CodegenError::DuplicateRustName);
}

#[test]
fn generate_reports_unparsable_text() {
    let mut m = NameMappings::default();
    m.new_composite_found(1, CompositeKind::Struct, Some("T"), "bad\\qname");
    let r = m.codegen().generate();
    assert_eq!(r.unwrap_err(), CodegenError::TokenParse);
}

#[test]
fn empty_variable_name_means_no_variable() {
    let m = NameMappings::default();
    let code = m.codegen().variable_name(Some("")).generate().unwrap();
    assert_eq!(code.to_string(), "\"\"");
}

#[test]
fn generated_value_escapes_quotes() {
    let mut m = NameMappings::default();
    m.new_composite_found(2, CompositeKind::Struct, Some("Bar"), "Bar");
    let code = m.codegen().generate().unwrap().to_string();
    assert_eq!(code, "\"\\\"Bar\\\" = \\\"struct Bar\\\"\n\"");
}

#[test]
fn builder_round_trip_keeps_mappings() {
    let mut m = NameMappings::default();
    m.new_composite_found(2, CompositeKind::Struct, Some("Bar"), "Bar");
    let back = m.codegen().force_aliases_use(true).mappings();
    assert_eq!(
        back.to_cbindgen_toml_renames(false).unwrap(),
        "\"Bar\" = \"struct Bar\"\n"
    );
}

#[test]
fn template_error_messages() {
    assert_eq!(
        TemplateError::MissingBindings.message(),
        "Template is missing bindings"
    );
    assert_eq!(
        TemplateError::DocumentNotRead.message(),
        "Template was not read before its use"
    );
    assert_eq!(
        TemplateError::InvalidSourcePath.message(),
        "Template has an invalid source path"
    );
}

#[test]
fn config_header_names_the_template() {
    let header = config_header_text("cbindgen.toml.template");
    assert_eq!(
        header,
        "# This configuration file has been automatically generated\n# Do not modify it manually, your changes will be lost. Instead, make changes to its associated template : cbindgen.toml.template\n\n"
    );
}

#[test]
fn resolve_name_picks_canonical_or_least_alias() {
    let m = NameMapping {
        kind: CompositeKind::Struct,
        c_name: Some(CName { identifier: String::from("Bar"), aliased: false }),
        rust_name: String::from("Bar"),
        aliases: vec![String::from("Zeta"), String::from("Alpha")],
    };
    assert_eq!(resolve_name(&m, false), Some(String::from("struct Bar")));
    assert_eq!(resolve_name(&m, true), Some(String::from("Alpha")));

    let anon = NameMapping {
        kind: CompositeKind::Union,
        c_name: None,
        rust_name: String::from("Anon"),
        aliases: Vec::new(),
    };
    assert_eq!(resolve_name(&anon, false), None);
}
