use derive_ahk::{ahk_function, ahk_library, StructDecl, StructFields, TypeDecl, UnsupportedShape, Variant, VariantFields};

fn named_struct(name: &str, fields: &[&str]) -> StructDecl {
    StructDecl {
        name: name.to_string(),
        fields: StructFields::Named(fields.iter().map(|f| f.to_string()).collect()),
    }
}

fn unit_variant(name: &str) -> Variant {
    Variant { name: name.to_string(), fields: VariantFields::Unit }
}

fn library(variants: Vec<Variant>) -> TypeDecl {
    TypeDecl::Enum { name: "SubCommand".to_string(), variants }
}

#[test]
fn resize_struct_renders_header_and_body() {
    let decl = TypeDecl::Struct(named_struct("Resize", &["x", "y"]));
    let text = ahk_function(&decl, "komorebic.exe").unwrap();
    assert_eq!(text, "\nResize(x, y) {\n    Run, komorebic.exe resize %x% %y%, , Hide\n}");
    let header = text.lines().nth(1).unwrap();
    assert!(text.starts_with('\n'));
    assert_eq!(header, "Resize(x, y) {");
}

#[test]
fn unit_variant_renders_zero_argument_definition() {
    let decl = library(vec![unit_variant("Stop")]);
    let text = ahk_library(&decl, "foo.exe").unwrap();
    assert_eq!(text, "; Generated by foo.exe\n\nStop() {\n    Run, foo.exe stop , , Hide\n}");
    assert!(!text.contains('%'));
}

#[test]
fn kebab_case_of_two_words() {
    let decl = TypeDecl::Struct(named_struct("StartApp", &[]));
    let text = ahk_function(&decl, "t.exe").unwrap();
    assert_eq!(text, "\nStartApp() {\n    Run, t.exe start-app , , Hide\n}");
}

#[test]
fn kebab_case_of_single_letter() {
    let decl = TypeDecl::Struct(named_struct("A", &["b"]));
    let text = ahk_function(&decl, "t.exe").unwrap();
    assert_eq!(text, "\nA(b) {\n    Run, t.exe a %b%, , Hide\n}");
}

#[test]
fn kebab_case_of_already_kebab_name() {
    let decl = library(vec![unit_variant("AlreadyKebab")]);
    let text = ahk_library(&decl, "t.exe").unwrap();
    assert!(text.contains("Run, t.exe already-kebab , , Hide"));
}

#[test]
fn zero_fields_give_empty_argument_line() {
    let decl = TypeDecl::Struct(named_struct("Retile", &[]));
    let text = ahk_function(&decl, "komorebic.exe").unwrap();
    assert_eq!(text, "\nRetile() {\n    Run, komorebic.exe retile , , Hide\n}");
}

#[test]
fn one_field_gives_one_placeholder() {
    let decl = TypeDecl::Struct(named_struct("Focus", &["operation_direction"]));
    let text = ahk_function(&decl, "komorebic.exe").unwrap();
    assert_eq!(
        text,
        "\nFocus(operation_direction) {\n    Run, komorebic.exe focus %operation_direction%, , Hide\n}"
    );
}

#[test]
fn three_fields_keep_declaration_order() {
    let decl = TypeDecl::Struct(named_struct("WorkspaceRule", &["exe", "monitor", "workspace"]));
    let text = ahk_function(&decl, "komorebic.exe").unwrap();
    assert_eq!(
        text,
        "\nWorkspaceRule(exe, monitor, workspace) {\n    Run, komorebic.exe workspace-rule %exe% %monitor% %workspace%, , Hide\n}"
    );
    let body = text.lines().nth(2).unwrap().trim_start();
    assert_eq!(body.matches('%').count(), 6);
    assert!(!body.contains("%%"));
    assert!(!body.contains("  "));
}

#[test]
fn function_of_enum_is_unsupported() {
    let decl = library(vec![unit_variant("Stop")]);
    assert_eq!(ahk_function(&decl, "t.exe"), Err(UnsupportedShape::NotAStruct));
}

#[test]
fn function_of_union_is_unsupported() {
    let decl = TypeDecl::Union { name: "Raw".to_string() };
    assert_eq!(ahk_function(&decl, "t.exe"), Err(UnsupportedShape::NotAStruct));
}

#[test]
fn function_of_tuple_struct_is_unsupported() {
    let decl = TypeDecl::Struct(StructDecl { name: "Pair".to_string(), fields: StructFields::Unnamed(2) });
    assert_eq!(ahk_function(&decl, "t.exe"), Err(UnsupportedShape::FieldsNotNamed));
}

#[test]
fn function_of_unit_struct_is_unsupported() {
    let decl = TypeDecl::Struct(StructDecl { name: "Marker".to_string(), fields: StructFields::Unit });
    assert_eq!(ahk_function(&decl, "t.exe"), Err(UnsupportedShape::FieldsNotNamed));
}

#[test]
fn library_of_struct_is_unsupported() {
    let decl = TypeDecl::Struct(named_struct("Resize", &["x", "y"]));
    assert_eq!(ahk_library(&decl, "t.exe"), Err(UnsupportedShape::NotAnEnum));
}

#[test]
fn library_with_named_variant_aborts() {
    let decl = library(vec![
        unit_variant("Stop"),
        Variant { name: "Move".to_string(), fields: VariantFields::Named(vec!["x".to_string()]) },
        unit_variant("Start"),
    ]);
    assert_eq!(ahk_library(&decl, "t.exe"), Err(UnsupportedShape::NamedVariant));
}

#[test]
fn library_with_unrenderable_field_type_aborts() {
    let decl = library(vec![Variant {
        name: "Pair".to_string(),
        fields: VariantFields::Unnamed(vec![StructDecl { name: "Pair".to_string(), fields: StructFields::Unnamed(1) }]),
    }]);
    assert_eq!(ahk_library(&decl, "t.exe"), Err(UnsupportedShape::FieldsNotNamed));
}

#[test]
fn library_delegates_unnamed_fields_in_order() {
    let resize = named_struct("Resize", &["x", "y"]);
    let focus = named_struct("Focus", &["direction"]);
    let decl = library(vec![
        unit_variant("Stop"),
        Variant {
            name: "Resize".to_string(),
            fields: VariantFields::Unnamed(vec![resize, focus]),
        },
        unit_variant("TogglePause"),
    ]);
    let text = ahk_library(&decl, "komorebic.exe").unwrap();
    let resize_alone = ahk_function(&TypeDecl::Struct(named_struct("Resize", &["x", "y"])), "komorebic.exe").unwrap();
    let focus_alone = ahk_function(&TypeDecl::Struct(named_struct("Focus", &["direction"])), "komorebic.exe").unwrap();
    let expected = [
        "; Generated by komorebic.exe".to_string(),
        "\nStop() {\n    Run, komorebic.exe stop , , Hide\n}".to_string(),
        resize_alone,
        focus_alone,
        "\nTogglePause() {\n    Run, komorebic.exe toggle-pause , , Hide\n}".to_string(),
    ]
    .join("\n");
    assert_eq!(text, expected);
}

#[test]
fn kebab_name_passed_in_is_used_verbatim() {
    let params = vec!["name".to_string()];
    let text = derive_ahk::text::render_definition_with("komorebic.exe", "StartApp", "start-app", &params);
    assert_eq!(text, "\nStartApp(name) {\n    Run, komorebic.exe start-app %name%, , Hide\n}");
}

#[test]
fn swap_fields_split_by_one_space() {
    let decl = TypeDecl::Struct(named_struct("Swap", &["from", "to"]));
    let text = ahk_function(&decl, "komorebic.exe").unwrap();
    assert_eq!(text, "\nSwap(from, to) {\n    Run, komorebic.exe swap %from% %to%, , Hide\n}");
}

#[test]
fn one_unit_variant_library_has_blank_line_after_banner() {
    let decl = library(vec![unit_variant("A")]);
    let text = ahk_library(&decl, "komorebic.exe").unwrap();
    assert_eq!(text, "; Generated by komorebic.exe\n\nA() {\n    Run, komorebic.exe a , , Hide\n}");
}

#[test]
fn empty_library_is_banner_alone() {
    let decl = library(vec![]);
    assert_eq!(ahk_library(&decl, "komorebic.exe").unwrap(), "; Generated by komorebic.exe");
}
