use crate::decl::{names_of, StructDecl, StructFields, TypeDecl, UnsupportedShape, Variant, VariantFields};
use crate::text::{definition, join_with, lemma_join_push, render_definition};
use vstd::prelude::*;

verus! {

/// What a rendering call returned, with the text as characters.
pub open spec fn text_result(r: Result<String, UnsupportedShape>) -> Result<Seq<char>, UnsupportedShape> {
    match r {
        Ok(s) => Ok(s@),
        Err(e) => Err(e),
    }
}

/// The definition of a struct: it must have named fields, which become the
/// parameters.
pub open spec fn struct_text(s: StructDecl, tool: Seq<char>) -> Result<Seq<char>, UnsupportedShape> {
    match s.fields {
        StructFields::Named(fs) => Ok(definition(tool, s.name@, names_of(fs@))),
        _ => Err(UnsupportedShape::FieldsNotNamed),
    }
}

/// What `ahk_function` renders for a declaration.
pub open spec fn function_text(decl: TypeDecl, tool: Seq<char>) -> Result<Seq<char>, UnsupportedShape> {
    match decl {
        TypeDecl::Struct(s) => struct_text(s, tool),
        _ => Err(UnsupportedShape::NotAStruct),
    }
}

/// The definitions of the field types of an unnamed-field variant, in order;
/// the first field type that cannot be rendered decides the error.
pub open spec fn field_texts(fs: Seq<StructDecl>, tool: Seq<char>) -> Result<Seq<Seq<char>>, UnsupportedShape>
    decreases fs.len(),
{
    if fs.len() == 0 {
        Ok(Seq::empty())
    } else {
        match field_texts(fs.drop_last(), tool) {
            Ok(prev) => match struct_text(fs.last(), tool) {
                Ok(t) => Ok(prev.push(t)),
                Err(e) => Err(e),
            },
            Err(e) => Err(e),
        }
    }
}

/// The definitions that one variant contributes to a library.
pub open spec fn variant_texts(v: Variant, tool: Seq<char>) -> Result<Seq<Seq<char>>, UnsupportedShape> {
    match v.fields {
        VariantFields::Unit => Ok(seq![definition(tool, v.name@, Seq::empty())]),
        VariantFields::Unnamed(fs) => field_texts(fs@, tool),
        VariantFields::Named(_) => Err(UnsupportedShape::NamedVariant),
    }
}

/// The definitions of all variants, in declaration order; the first variant
/// that cannot be rendered decides the error.
pub open spec fn variants_texts(vs: Seq<Variant>, tool: Seq<char>) -> Result<Seq<Seq<char>>, UnsupportedShape>
    decreases vs.len(),
{
    if vs.len() == 0 {
        Ok(Seq::empty())
    } else {
        match variants_texts(vs.drop_last(), tool) {
            Ok(prev) => match variant_texts(vs.last(), tool) {
                Ok(d) => Ok(prev + d),
                Err(e) => Err(e),
            },
            Err(e) => Err(e),
        }
    }
}

/// The first line of a library.
pub open spec fn banner(tool: Seq<char>) -> Seq<char> {
    "; Generated by "@ + tool
}

/// The library for a list of variants: the banner and then each definition,
/// one newline between each two.
pub open spec fn variants_library(vs: Seq<Variant>, tool: Seq<char>) -> Result<Seq<char>, UnsupportedShape> {
    match variants_texts(vs, tool) {
        Ok(ds) => Ok(join_with(seq![banner(tool)] + ds, "\n"@)),
        Err(e) => Err(e),
    }
}

/// What `ahk_library` renders for a declaration.
pub open spec fn library_text(decl: TypeDecl, tool: Seq<char>) -> Result<Seq<char>, UnsupportedShape> {
    match decl {
        TypeDecl::Enum { variants, .. } => variants_library(variants@, tool),
        _ => Err(UnsupportedShape::NotAnEnum),
    }
}

proof fn lemma_field_texts_stop(fs: Seq<StructDecl>, k: int, tool: Seq<char>)
    requires
        0 <= k <= fs.len(),
        field_texts(fs.take(k), tool) is Err,
    ensures
        field_texts(fs, tool) == field_texts(fs.take(k), tool),
    decreases fs.len(),
{
    if k == fs.len() {
        assert(fs.take(k) =~= fs);
    } else {
        assert(fs.drop_last().take(k) =~= fs.take(k));
        lemma_field_texts_stop(fs.drop_last(), k, tool);
    }
}

pub(crate) proof fn lemma_variants_texts_stop(vs: Seq<Variant>, k: int, tool: Seq<char>)
    requires
        0 <= k <= vs.len(),
        variants_texts(vs.take(k), tool) is Err,
    ensures
        variants_texts(vs, tool) == variants_texts(vs.take(k), tool),
    decreases vs.len(),
{
    if k == vs.len() {
        assert(vs.take(k) =~= vs);
    } else {
        assert(vs.drop_last().take(k) =~= vs.take(k));
        lemma_variants_texts_stop(vs.drop_last(), k, tool);
    }
}

fn struct_definition(s: &StructDecl, tool: &str) -> (r: Result<String, UnsupportedShape>)
    ensures
        text_result(r) == struct_text(*s, tool@),
{
    match &s.fields {
        StructFields::Named(fs) => Ok(render_definition(tool, s.name.as_str(), fs)),
        _ => Err(UnsupportedShape::FieldsNotNamed),
    }
}

/// Renders the definition for a struct with named fields: a header that
/// lists the field names, and a body line that runs `tool` with the
/// kebab-cased struct name and one placeholder per field.
pub fn ahk_function(decl: &TypeDecl, tool: &str) -> (r: Result<String, UnsupportedShape>)
    ensures
        text_result(r) == function_text(*decl, tool@),
{
    match decl {
        TypeDecl::Struct(s) => struct_definition(s, tool),
        _ => Err(UnsupportedShape::NotAStruct),
    }
}

fn library_of(variants: &Vec<Variant>, tool: &str) -> (r: Result<String, UnsupportedShape>)
    ensures
        text_result(r) == variants_library(variants@, tool@),
{
    let mut out = String::from_str("; Generated by ");
    out.append(tool);
    let ghost mut defs: Seq<Seq<char>> = Seq::empty();
    proof {
        assert(seq![banner(tool@)] + defs =~= seq![banner(tool@)]);
        assert(variants@.take(0) =~= Seq::<Variant>::empty());
    }
    let n = variants.len();
    let mut i: usize = 0;
    while i < n
        invariant
            n == variants.len(),
            i <= n,
            variants_texts(variants@.take(i as int), tool@) == Ok::<Seq<Seq<char>>, UnsupportedShape>(defs),
            out@ == join_with(seq![banner(tool@)] + defs, "\n"@),
        decreases n - i,
    {
        let v = &variants[i];
        proof {
            assert(variants@.take(i + 1).drop_last() =~= variants@.take(i as int));
        }
        match &v.fields {
            VariantFields::Unit => {
                let empty: Vec<String> = Vec::new();
                let d = render_definition(tool, v.name.as_str(), &empty);
                out.append("\n");
                out.append(d.as_str());
                proof {
                    assert(names_of(empty@) =~= Seq::<Seq<char>>::empty());
                    lemma_join_push(seq![banner(tool@)] + defs, "\n"@, d@);
                    assert((seq![banner(tool@)] + defs).push(d@) =~= seq![banner(tool@)] + (defs + seq![d@]));
                    defs = defs + seq![d@];
                }
            },
            VariantFields::Unnamed(fs) => {
                let ghost mut found: Seq<Seq<char>> = Seq::empty();
                proof {
                    assert(fs@.take(0) =~= Seq::<StructDecl>::empty());
                    assert(defs + found =~= defs);
                }
                let m = fs.len();
                let mut j: usize = 0;
                while j < m
                    invariant
                        n == variants.len(),
                        i < n,
                        variants@[i as int].fields == VariantFields::Unnamed(*fs),
                        variants_texts(variants@.take(i as int), tool@) == Ok::<Seq<Seq<char>>, UnsupportedShape>(defs),
                        m == fs.len(),
                        j <= m,
                        field_texts(fs@.take(j as int), tool@) == Ok::<Seq<Seq<char>>, UnsupportedShape>(found),
                        out@ == join_with(seq![banner(tool@)] + (defs + found), "\n"@),
                    decreases m - j,
                {
                    proof {
                        assert(fs@.take(j + 1).drop_last() =~= fs@.take(j as int));
                    }
                    match struct_definition(&fs[j], tool) {
                        Ok(d) => {
                            out.append("\n");
                            out.append(d.as_str());
                            proof {
                                lemma_join_push(seq![banner(tool@)] + (defs + found), "\n"@, d@);
                                assert((seq![banner(tool@)] + (defs + found)).push(d@)
                                    =~= seq![banner(tool@)] + (defs + found.push(d@)));
                                found = found.push(d@);
                            }
                        },
                        Err(e) => {
                            proof {
                                assert(field_texts(fs@.take(j + 1), tool@) == Err::<Seq<Seq<char>>, UnsupportedShape>(e));
                                lemma_field_texts_stop(fs@, j + 1, tool@);
                                assert(variants@.take(i + 1).drop_last() =~= variants@.take(i as int));
                                assert(variants@.take(i + 1).last() == variants@[i as int]);
                                assert(variants_texts(variants@.take(i + 1), tool@) == Err::<Seq<Seq<char>>, UnsupportedShape>(e));
                                lemma_variants_texts_stop(variants@, i + 1, tool@);
                            }
                            return Err(e);
                        },
                    }
                    j = j + 1;
                }
                proof {
                    assert(fs@.take(m as int) =~= fs@);
                    defs = defs + found;
                }
            },
            VariantFields::Named(_) => {
                proof {
                    assert(variants@.take(i + 1).last() == variants@[i as int]);
                    lemma_variants_texts_stop(variants@, i + 1, tool@);
                }
                return Err(UnsupportedShape::NamedVariant);
            },
        }
        i = i + 1;
    }
    proof {
        assert(variants@.take(n as int) =~= variants@);
    }
    Ok(out)
}

/// Renders a library for an enum: a banner line, then, in variant order, a
/// zero-argument definition for each unit variant and the struct definition
/// of each field type of each unnamed-field variant.
pub fn ahk_library(decl: &TypeDecl, tool: &str) -> (r: Result<String, UnsupportedShape>)
    ensures
        text_result(r) == library_text(*decl, tool@),
{
    match decl {
        TypeDecl::Enum { variants, .. } => library_of(variants, tool),
        _ => Err(UnsupportedShape::NotAnEnum),
    }
}

} // verus!
