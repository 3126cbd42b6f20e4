use crate::casing::kebab_of;
use crate::decl::{StructDecl, TypeDecl, UnsupportedShape, Variant, VariantFields};
use crate::generate::{
    field_texts, function_text, lemma_variants_texts_stop, library_text, struct_text, variant_texts,
    variants_texts,
};
use crate::text::{body_line, definition, header, join_with, placeholder, placeholders};
use vstd::prelude::*;

verus! {

/// How often `c` occurs in `s`.
pub open spec fn occurrences(s: Seq<char>, c: char) -> nat
    decreases s.len(),
{
    if s.len() == 0 {
        0
    } else {
        occurrences(s.drop_last(), c) + if s.last() == c { 1nat } else { 0nat }
    }
}

/// No two neighbouring characters of `s` are both `c`.
pub open spec fn no_doubled(s: Seq<char>, c: char) -> bool {
    forall|i: int| 0 <= i < s.len() - 1 ==> !(#[trigger] s[i] == c && s[i + 1] == c)
}

proof fn lemma_occurrences_concat(a: Seq<char>, b: Seq<char>, c: char)
    ensures
        occurrences(a + b, c) == occurrences(a, c) + occurrences(b, c),
    decreases b.len(),
{
    if b.len() == 0 {
        assert(a + b =~= a);
    } else {
        assert((a + b).drop_last() =~= a + b.drop_last());
        lemma_occurrences_concat(a, b.drop_last(), c);
    }
}

proof fn lemma_occurrences_single(x: char, c: char)
    ensures
        occurrences(seq![x], c) == if x == c { 1nat } else { 0nat },
{
    assert(seq![x].drop_last() =~= Seq::<char>::empty());
    assert(occurrences(Seq::<char>::empty(), c) == 0);
}

proof fn lemma_no_doubled_concat(a: Seq<char>, b: Seq<char>, c: char)
    requires
        no_doubled(a, c),
        no_doubled(b, c),
        a.len() > 0 && b.len() > 0 ==> !(a.last() == c && b[0] == c),
    ensures
        no_doubled(a + b, c),
{
    let s = a + b;
    assert forall|i: int| 0 <= i < s.len() - 1 implies !(#[trigger] s[i] == c && s[i + 1] == c) by {
        if i < a.len() - 1 {
            assert(s[i] == a[i] && s[i + 1] == a[i + 1]);
        } else if i == a.len() - 1 {
            assert(s[i] == a.last() && s[i + 1] == b[0]);
        } else {
            assert(s[i] == b[i - a.len()] && s[i + 1] == b[i - a.len() + 1]);
        }
    }
}

/// A joined list is its first part followed by, for each later part in
/// order, the separator and that part: no separator leads or trails.
pub proof fn lemma_join_in_order(parts: Seq<Seq<char>>, sep: Seq<char>)
    requires
        parts.len() >= 1,
    ensures
        join_with(parts, sep) == parts[0] + parts.drop_first().map_values(|p: Seq<char>| sep + p).flatten(),
    decreases parts.len(),
{
    let tail = parts.drop_first().map_values(|p: Seq<char>| sep + p);
    if parts.len() == 1 {
        assert(tail =~= Seq::<Seq<char>>::empty());
        assert(parts[0] + tail.flatten() =~= parts[0]);
    } else {
        lemma_join_in_order(parts.drop_last(), sep);
        let shorter = parts.drop_last().drop_first().map_values(|p: Seq<char>| sep + p);
        assert(tail =~= shorter.push(sep + parts.last()));
        shorter.lemma_flatten_push(sep + parts.last());
        assert(parts.drop_last()[0] == parts[0]);
        assert(join_with(parts, sep) =~= parts[0] + tail.flatten());
    }
}

/// The header of a definition with at least one parameter lists every
/// parameter once, in declaration order, with `, ` between each two and no
/// separator before the first or after the last; where no parameter holds a
/// comma, the list holds exactly one comma fewer than there are parameters.
pub proof fn lemma_header_lists_parameters(name: Seq<char>, params: Seq<Seq<char>>)
    requires
        params.len() >= 1,
    ensures
        header(name, params) == name + "("@ + params[0] + params.drop_first().map_values(
            |p: Seq<char>| ", "@ + p,
        ).flatten() + ")"@,
        (forall|i: int| 0 <= i < params.len() ==> occurrences(#[trigger] params[i], ',') == 0)
            ==> occurrences(join_with(params, ", "@), ',') == params.len() - 1,
{
    lemma_join_in_order(params, ", "@);
    if forall|i: int| 0 <= i < params.len() ==> occurrences(#[trigger] params[i], ',') == 0 {
        lemma_join_commas(params);
    }
}

proof fn lemma_join_commas(params: Seq<Seq<char>>)
    requires
        params.len() >= 1,
        forall|i: int| 0 <= i < params.len() ==> occurrences(#[trigger] params[i], ',') == 0,
    ensures
        occurrences(join_with(params, ", "@), ',') == params.len() - 1,
    decreases params.len(),
{
    if params.len() > 1 {
        lemma_join_commas(params.drop_last());
        assert(params.drop_last().len() >= 1);
        let j = join_with(params.drop_last(), ", "@);
        lemma_occurrences_concat(j + ", "@, params.last(), ',');
        lemma_occurrences_concat(j, ", "@, ',');
        reveal_strlit(", ");
        assert(", "@.drop_last() =~= seq![',']);
        lemma_occurrences_single(',', ',');
        assert(occurrences(params[params.len() - 1], ',') == 0);
    }
}

/// Facts about one placeholder: it opens and closes with `%`, and holds
/// exactly two of them where the name holds none.
proof fn lemma_placeholder(p: Seq<char>)
    requires
        p.len() >= 1,
        occurrences(p, '%') == 0,
        occurrences(p, ' ') == 0,
    ensures
        placeholder(p).len() >= 3,
        placeholder(p)[0] == '%',
        placeholder(p).last() == '%',
        occurrences(placeholder(p), '%') == 2,
        occurrences(placeholder(p), ' ') == 0,
        no_doubled(placeholder(p), '%'),
        no_doubled(placeholder(p), ' '),
{
    reveal_strlit("%");
    let pc = seq!['%'];
    assert("%"@ =~= pc);
    lemma_occurrences_single('%', '%');
    lemma_occurrences_single('%', ' ');
    lemma_occurrences_concat(pc + p, pc, '%');
    lemma_occurrences_concat(pc, p, '%');
    lemma_occurrences_concat(pc + p, pc, ' ');
    lemma_occurrences_concat(pc, p, ' ');
    lemma_no_char(p, '%');
    lemma_no_char(p, ' ');
    lemma_no_doubled_concat(pc, p, '%');
    lemma_no_doubled_concat(pc + p, pc, '%');
    lemma_no_doubled_concat(pc, p, ' ');
    lemma_no_doubled_concat(pc + p, pc, ' ');
    assert(placeholder(p) =~= pc + p + pc);
}

proof fn lemma_no_char(s: Seq<char>, c: char)
    requires
        occurrences(s, c) == 0,
    ensures
        forall|i: int| 0 <= i < s.len() ==> s[i] != c,
        no_doubled(s, c),
    decreases s.len(),
{
    if s.len() > 0 {
        lemma_no_char(s.drop_last(), c);
        assert forall|i: int| 0 <= i < s.len() implies s[i] != c by {
            if i < s.len() - 1 {
                assert(s.drop_last()[i] == s[i]);
            }
        }
    }
}

/// The placeholders of a body line: none for no parameters; otherwise, where
/// every name is non-empty and holds neither `%` nor a space, one `%name%`
/// token per parameter, in order, with exactly one space between each two:
/// the text opens and closes with `%`, holds twice as many `%` as there are
/// parameters and one space fewer than there are parameters, and never two
/// `%` or two spaces side by side.
pub proof fn lemma_placeholders_well_formed(params: Seq<Seq<char>>)
    requires
        forall|i: int|
            0 <= i < params.len() ==> (#[trigger] params[i]).len() >= 1 && occurrences(params[i], '%') == 0
                && occurrences(params[i], ' ') == 0,
    ensures
        params.len() == 0 ==> placeholders(params) == Seq::<char>::empty(),
        params.len() >= 1 ==> placeholders(params) == placeholder(params[0]) + params.drop_first().map_values(
            |p: Seq<char>| " "@ + placeholder(p),
        ).flatten(),
        params.len() >= 1 ==> placeholders(params)[0] == '%' && placeholders(params).last() == '%',
        occurrences(placeholders(params), '%') == 2 * params.len(),
        params.len() >= 1 ==> occurrences(placeholders(params), ' ') == params.len() - 1,
        no_doubled(placeholders(params), '%'),
        no_doubled(placeholders(params), ' '),
    decreases params.len(),
{
    let marks = params.map_values(|p: Seq<char>| placeholder(p));
    if params.len() == 0 {
        assert(placeholders(params) =~= Seq::<char>::empty());
    } else {
        lemma_join_in_order(marks, " "@);
        assert(marks.drop_first().map_values(|m: Seq<char>| " "@ + m) =~= params.drop_first().map_values(
            |p: Seq<char>| " "@ + placeholder(p),
        ));
        lemma_placeholder(params.last());
        if params.len() == 1 {
            lemma_placeholder(params[0]);
        } else {
            let rest = params.drop_last();
            lemma_placeholders_well_formed(rest);
            assert(rest.map_values(|p: Seq<char>| placeholder(p)) =~= marks.drop_last());
            let j = placeholders(rest);
            let last = placeholder(params.last());
            reveal_strlit(" ");
            let sp = seq![' '];
            assert(" "@ =~= sp);
            lemma_occurrences_single(' ', '%');
            lemma_occurrences_single(' ', ' ');
            assert(placeholders(params) =~= j + sp + last);
            lemma_occurrences_concat(j + sp, last, '%');
            lemma_occurrences_concat(j, sp, '%');
            lemma_occurrences_concat(j + sp, last, ' ');
            lemma_occurrences_concat(j, sp, ' ');
            lemma_no_doubled_concat(j, sp, '%');
            lemma_no_doubled_concat(j + sp, last, '%');
            lemma_no_doubled_concat(j, sp, ' ');
            lemma_no_doubled_concat(j + sp, last, ' ');
            assert((j + sp + last)[0] == j[0]);
        }
    }
}

proof fn lemma_field_texts(fs: Seq<StructDecl>, tool: Seq<char>)
    ensures
        (field_texts(fs, tool) is Ok) == (forall|i: int| 0 <= i < fs.len() ==> (#[trigger] struct_text(fs[i], tool)) is Ok),
        field_texts(fs, tool) is Ok ==> field_texts(fs, tool)->Ok_0.len() == fs.len(),
        field_texts(fs, tool) is Ok ==> forall|i: int|
            0 <= i < fs.len() ==> Ok::<Seq<char>, UnsupportedShape>(field_texts(fs, tool)->Ok_0[i])
                == #[trigger] struct_text(fs[i], tool),
    decreases fs.len(),
{
    if fs.len() > 0 {
        let rest = fs.drop_last();
        lemma_field_texts(rest, tool);
        assert forall|i: int| 0 <= i < rest.len() implies #[trigger] rest[i] == fs[i] by {}
        if field_texts(fs, tool) is Ok {
            let ds = field_texts(fs, tool)->Ok_0;
            assert forall|i: int| 0 <= i < fs.len() implies Ok::<Seq<char>, UnsupportedShape>(ds[i])
                == #[trigger] struct_text(fs[i], tool) by {
                if i < fs.len() - 1 {
                    assert(rest[i] == fs[i]);
                }
            }
        } else if field_texts(rest, tool) is Ok {
            assert(!(struct_text(fs[fs.len() - 1], tool) is Ok));
        } else {
            let k = choose|k: int| 0 <= k < rest.len() && !(#[trigger] struct_text(rest[k], tool) is Ok);
            assert(rest[k] == fs[k]);
        }
    }
}

/// A unit variant contributes one definition with no parameters: the header
/// `Name()`, and a body line that runs the tool with the kebab-cased name and
/// no placeholder.
pub proof fn lemma_unit_variant(v: Variant, tool: Seq<char>)
    requires
        v.fields is Unit,
    ensures
        variant_texts(v, tool) == Ok::<Seq<Seq<char>>, UnsupportedShape>(
            seq![definition(tool, v.name@, Seq::empty())],
        ),
        header(v.name@, Seq::empty()) == v.name@ + "("@ + ")"@,
        placeholders(Seq::empty()) == Seq::<char>::empty(),
        body_line(tool, v.name@, Seq::empty()) == "Run, "@ + tool + " "@ + kebab_of(v.name@) + " "@ + ", , Hide"@,
{
    assert(Seq::<Seq<char>>::empty().map_values(|p: Seq<char>| placeholder(p)) =~= Seq::<Seq<char>>::empty());
    assert(v.name@ + "("@ + Seq::<char>::empty() =~= v.name@ + "("@);
    assert(kebab_of(v.name@) + " "@ + Seq::<char>::empty() =~= kebab_of(v.name@) + " "@);
}

/// An unnamed-field variant contributes one definition per field, in order,
/// each the one that rendering the field's struct on its own gives; it can be
/// rendered exactly when every field's struct can.
pub proof fn lemma_unnamed_variant(v: Variant, fs: Vec<StructDecl>, tool: Seq<char>)
    requires
        v.fields == VariantFields::Unnamed(fs),
    ensures
        (variant_texts(v, tool) is Ok) == (forall|i: int|
            0 <= i < fs.len() ==> (#[trigger] struct_text(fs@[i], tool)) is Ok),
        variant_texts(v, tool) is Ok ==> variant_texts(v, tool)->Ok_0.len() == fs.len(),
        variant_texts(v, tool) is Ok ==> forall|i: int|
            0 <= i < fs.len() ==> Ok::<Seq<char>, UnsupportedShape>(variant_texts(v, tool)->Ok_0[i])
                == #[trigger] function_text(TypeDecl::Struct(fs@[i]), tool),
{
    lemma_field_texts(fs@, tool);
    if variant_texts(v, tool) is Ok {
        assert forall|i: int| 0 <= i < fs.len() implies Ok::<Seq<char>, UnsupportedShape>(
            variant_texts(v, tool)->Ok_0[i],
        ) == #[trigger] function_text(TypeDecl::Struct(fs@[i]), tool) by {
            assert(Ok::<Seq<char>, UnsupportedShape>(field_texts(fs@, tool)->Ok_0[i]) == struct_text(fs@[i], tool));
        }
    }
}

proof fn lemma_variants_prefix_ok(vs: Seq<Variant>, k: int, tool: Seq<char>)
    requires
        0 <= k <= vs.len(),
        forall|j: int| 0 <= j < k ==> (#[trigger] variant_texts(vs[j], tool)) is Ok,
    ensures
        variants_texts(vs.take(k), tool) is Ok,
    decreases k,
{
    if k > 0 {
        lemma_variants_prefix_ok(vs, k - 1, tool);
        assert(vs.take(k).drop_last() =~= vs.take(k - 1));
        assert(vs.take(k).last() == vs[k - 1]);
        assert(variant_texts(vs[k - 1], tool) is Ok);
    }
}

/// An enum whose variants can all be rendered but one, which carries named
/// fields, cannot be rendered as a library: the named-field variant is
/// reported, never skipped.
pub proof fn lemma_named_variant_aborts(name: String, variants: Vec<Variant>, i: int, tool: Seq<char>)
    requires
        0 <= i < variants.len(),
        variants@[i].fields is Named,
        forall|j: int| 0 <= j < variants.len() && j != i ==> (#[trigger] variant_texts(variants@[j], tool)) is Ok,
    ensures
        library_text((TypeDecl::Enum { name: name, variants: variants }), tool) == Err::<Seq<char>, UnsupportedShape>(
            UnsupportedShape::NamedVariant,
        ),
{
    let vs = variants@;
    lemma_variants_prefix_ok(vs, i, tool);
    assert(vs.take(i + 1).drop_last() =~= vs.take(i));
    assert(vs.take(i + 1).last() == vs[i]);
    lemma_variants_texts_stop(vs, i + 1, tool);
}

/// `s` with each occurrence of the pair `a b`, found from left to right
/// without overlap, replaced by `r`.
pub open spec fn replace_pair(s: Seq<char>, a: char, b: char, r: Seq<char>) -> Seq<char>
    decreases s.len(),
{
    if s.len() < 2 {
        s
    } else if s[0] == a && s[1] == b {
        r + replace_pair(s.subrange(2, s.len() as int), a, b, r)
    } else {
        seq![s[0]] + replace_pair(s.drop_first(), a, b, r)
    }
}

/// Three replacements in this order: ` %` by `%`, `% ` by `%`, then `%%` by
/// `% %`.
pub open spec fn normalize(s: Seq<char>) -> Seq<char> {
    replace_pair(
        replace_pair(replace_pair(s, ' ', '%', seq!['%']), '%', ' ', seq!['%']),
        '%',
        '%',
        seq!['%', ' ', '%'],
    )
}

/// The tokens `% name %` of the parameters, separated by single spaces.
pub open spec fn spaced_placeholders(params: Seq<Seq<char>>) -> Seq<char> {
    join_with(params.map_values(|p: Seq<char>| seq!['%', ' '] + p + seq![' ', '%']), seq![' '])
}

spec fn plain(p: Seq<char>) -> bool {
    p.len() >= 1 && forall|i: int| 0 <= i < p.len() ==> p[i] != '%' && p[i] != ' '
}

spec fn spaced_once(p: Seq<char>) -> Seq<char> {
    seq!['%', ' '] + p + seq!['%']
}

spec fn closed(p: Seq<char>) -> Seq<char> {
    seq!['%'] + p + seq!['%']
}

proof fn lemma_replace_split(x: Seq<char>, y: Seq<char>, a: char, b: char, r: Seq<char>)
    requires
        x.len() == 0 || y.len() == 0 || !(x.last() == a && y[0] == b),
    ensures
        replace_pair(x + y, a, b, r) == replace_pair(x, a, b, r) + replace_pair(y, a, b, r),
    decreases x.len(),
{
    if x.len() == 0 {
        assert(x + y =~= y);
        assert(replace_pair(x, a, b, r) =~= Seq::<char>::empty());
        assert(Seq::<char>::empty() + replace_pair(y, a, b, r) =~= replace_pair(y, a, b, r));
    } else if y.len() == 0 {
        assert(x + y =~= x);
        assert(replace_pair(y, a, b, r) =~= Seq::<char>::empty());
        assert(replace_pair(x, a, b, r) + Seq::<char>::empty() =~= replace_pair(x, a, b, r));
    } else if x.len() == 1 {
        assert((x + y)[0] == x[0] && (x + y)[1] == y[0]);
        assert((x + y).drop_first() =~= y);
        assert(seq![x[0]] =~= x);
    } else if x[0] == a && x[1] == b {
        let xs = x.subrange(2, x.len() as int);
        assert((x + y).subrange(2, (x + y).len() as int) =~= xs + y);
        if xs.len() > 0 {
            assert(xs.last() == x.last());
        }
        lemma_replace_split(xs, y, a, b, r);
        assert(r + (replace_pair(xs, a, b, r) + replace_pair(y, a, b, r))
            =~= r + replace_pair(xs, a, b, r) + replace_pair(y, a, b, r));
    } else {
        let xs = x.drop_first();
        assert((x + y).drop_first() =~= xs + y);
        assert(xs.last() == x.last());
        lemma_replace_split(xs, y, a, b, r);
        assert(seq![x[0]] + (replace_pair(xs, a, b, r) + replace_pair(y, a, b, r))
            =~= seq![x[0]] + replace_pair(xs, a, b, r) + replace_pair(y, a, b, r));
    }
}

proof fn lemma_replace_none(s: Seq<char>, a: char, b: char, r: Seq<char>)
    requires
        forall|i: int| 0 <= i < s.len() ==> s[i] != a,
    ensures
        replace_pair(s, a, b, r) == s,
    decreases s.len(),
{
    if s.len() >= 2 {
        lemma_replace_none(s.drop_first(), a, b, r);
        assert(seq![s[0]] + s.drop_first() =~= s);
    }
}

proof fn lemma_replace_two(x0: char, x1: char, a: char, b: char, r: Seq<char>)
    ensures
        replace_pair(seq![x0, x1], a, b, r) == if x0 == a && x1 == b { r } else { seq![x0, x1] },
{
    let s = seq![x0, x1];
    assert(s.subrange(2, 2) =~= Seq::<char>::empty());
    assert(replace_pair(Seq::<char>::empty(), a, b, r) == Seq::<char>::empty());
    assert(r + Seq::<char>::empty() =~= r);
    assert(s.drop_first() =~= seq![x1]);
    assert(replace_pair(seq![x1], a, b, r) == seq![x1]);
    assert(seq![x0] + seq![x1] =~= s);
}

/// Facts about a plain name inside the markers under each replacement.
proof fn lemma_replace_name(p: Seq<char>, left: Seq<char>, right: Seq<char>, a: char, b: char, r: Seq<char>)
    requires
        plain(p),
        a == '%' || a == ' ',
        left.len() == 0 || !(left.last() == a && p[0] == b),
        right.len() == 0 || b == '%' || b == ' ',
    ensures
        replace_pair(left + p + right, a, b, r) == replace_pair(left, a, b, r) + p + replace_pair(right, a, b, r),
{
    lemma_replace_none(p, a, b, r);
    lemma_replace_split(p, right, a, b, r);
    lemma_replace_split(left, p + right, a, b, r);
    assert(left + p + right =~= left + (p + right));
}

proof fn lemma_join_last(parts: Seq<Seq<char>>, sep: Seq<char>)
    requires
        parts.len() >= 1,
        parts.last().len() >= 1,
    ensures
        join_with(parts, sep).len() >= 1,
        join_with(parts, sep).last() == parts.last().last(),
{
}

proof fn lemma_first_token(q: Seq<char>)
    requires
        plain(q),
    ensures
        replace_pair(seq!['%', ' '] + q + seq![' ', '%'], ' ', '%', seq!['%']) == spaced_once(q),
        replace_pair(seq![' ', '%', ' '] + q + seq![' ', '%'], ' ', '%', seq!['%']) == spaced_once(q),
{
    lemma_replace_two(' ', '%', ' ', '%', seq!['%']);
    lemma_replace_two('%', ' ', ' ', '%', seq!['%']);
    lemma_replace_name(q, seq!['%', ' '], seq![' ', '%'], ' ', '%', seq!['%']);
    lemma_replace_split(seq![' ', '%'], seq![' '], ' ', '%', seq!['%']);
    assert(seq![' ', '%'] + seq![' '] =~= seq![' ', '%', ' ']);
    assert(replace_pair(seq![' '], ' ', '%', seq!['%']) == seq![' ']);
    assert(seq!['%'] + seq![' '] =~= seq!['%', ' ']);
    lemma_replace_name(q, seq![' ', '%', ' '], seq![' ', '%'], ' ', '%', seq!['%']);
}

proof fn lemma_first_replacement(ps: Seq<Seq<char>>)
    requires
        ps.len() >= 1,
        forall|i: int| 0 <= i < ps.len() ==> plain(#[trigger] ps[i]),
    ensures
        replace_pair(spaced_placeholders(ps), ' ', '%', seq!['%']) == join_with(
            ps.map_values(|p: Seq<char>| spaced_once(p)),
            Seq::empty(),
        ),
    decreases ps.len(),
{
    let q = ps.last();
    assert(plain(ps[ps.len() - 1]));
    let w = ps.map_values(|p: Seq<char>| seq!['%', ' '] + p + seq![' ', '%']);
    let u = ps.map_values(|p: Seq<char>| spaced_once(p));
    lemma_first_token(q);
    if ps.len() == 1 {
        assert(spaced_placeholders(ps) == w[0]);
        assert(join_with(u, Seq::empty()) == u[0]);
    } else {
        let rest = ps.drop_last();
        lemma_first_replacement(rest);
        assert(rest.map_values(|p: Seq<char>| seq!['%', ' '] + p + seq![' ', '%']) =~= w.drop_last());
        assert(rest.map_values(|p: Seq<char>| spaced_once(p)) =~= u.drop_last());
        let x = spaced_placeholders(rest);
        lemma_join_last(w.drop_last(), seq![' ']);
        assert(w.drop_last().last() == seq!['%', ' '] + rest.last() + seq![' ', '%']);
        assert(w.drop_last().last().last() == '%');
        let y = seq![' ', '%', ' '] + q + seq![' ', '%'];
        assert(spaced_placeholders(ps) =~= x + y);
        lemma_replace_split(x, y, ' ', '%', seq!['%']);
        assert(join_with(u, Seq::empty()) =~= join_with(u.drop_last(), Seq::empty()) + u.last());
    }
}

spec fn boundary_ok(x: Seq<char>, y: Seq<char>, a: char, b: char) -> bool {
    x.len() == 0 || y.len() == 0 || !(x.last() == a && y[0] == b)
}

proof fn lemma_replace_join(
    parts: Seq<Seq<char>>,
    outs: Seq<Seq<char>>,
    sep: Seq<char>,
    sep_out: Seq<char>,
    a: char,
    b: char,
    r: Seq<char>,
)
    requires
        parts.len() >= 1,
        outs.len() == parts.len(),
        forall|i: int| 0 <= i < parts.len() ==> (#[trigger] parts[i]).len() >= 1,
        forall|i: int, j: int|
            0 <= i < parts.len() && 0 <= j < parts.len() ==> #[trigger] boundary_ok(parts[i], sep + parts[j], a, b),
        replace_pair(parts[0], a, b, r) == outs[0],
        forall|i: int| 0 <= i < parts.len() ==> replace_pair(sep + #[trigger] parts[i], a, b, r) == sep_out + outs[i],
    ensures
        replace_pair(join_with(parts, sep), a, b, r) == join_with(outs, sep_out),
    decreases parts.len(),
{
    if parts.len() > 1 {
        let n = parts.len() - 1;
        let front = parts.drop_last();
        assert forall|i: int, j: int| 0 <= i < front.len() && 0 <= j < front.len() implies #[trigger] boundary_ok(
            front[i],
            sep + front[j],
            a,
            b,
        ) by {
            assert(boundary_ok(parts[i], sep + parts[j], a, b));
        }
        assert forall|i: int| 0 <= i < front.len() implies replace_pair(sep + #[trigger] front[i], a, b, r) == sep_out
            + outs.drop_last()[i] by {
            assert(front[i] == parts[i]);
        }
        assert(front[0] == parts[0]);
        assert(front.last() == parts[n - 1]);
        assert(parts[n - 1].len() >= 1);
        assert(parts[n].len() >= 1);
        lemma_replace_join(front, outs.drop_last(), sep, sep_out, a, b, r);
        lemma_join_last(front, sep);
        assert(boundary_ok(parts[n - 1], sep + parts[n], a, b));
        let x = join_with(front, sep);
        assert(join_with(parts, sep) =~= x + (sep + parts[n]));
        lemma_replace_split(x, sep + parts[n], a, b, r);
        assert(replace_pair(sep + parts[n], a, b, r) == sep_out + outs[n]);
        assert(join_with(outs, sep_out) =~= join_with(outs.drop_last(), sep_out) + (sep_out + outs[n]));
    }
}

proof fn lemma_second_replacement(ps: Seq<Seq<char>>)
    requires
        ps.len() >= 1,
        forall|i: int| 0 <= i < ps.len() ==> plain(#[trigger] ps[i]),
    ensures
        replace_pair(join_with(ps.map_values(|p: Seq<char>| spaced_once(p)), Seq::empty()), '%', ' ', seq!['%'])
            == join_with(ps.map_values(|p: Seq<char>| closed(p)), Seq::empty()),
{
    let u = ps.map_values(|p: Seq<char>| spaced_once(p));
    let c = ps.map_values(|p: Seq<char>| closed(p));
    let e = Seq::<char>::empty();
    lemma_replace_two('%', ' ', '%', ' ', seq!['%']);
    assert forall|i: int| 0 <= i < u.len() implies replace_pair(e + #[trigger] u[i], '%', ' ', seq!['%']) == e + c[i] by {
        assert(plain(ps[i]));
        lemma_replace_name(ps[i], seq!['%', ' '], seq!['%'], '%', ' ', seq!['%']);
        assert(e + u[i] =~= u[i]);
        assert(e + c[i] =~= c[i]);
        assert(seq!['%'] + ps[i] + seq!['%'] =~= c[i]);
    }
    assert(e + u[0] =~= u[0]);
    assert(e + c[0] =~= c[0]);
    assert forall|i: int, j: int| 0 <= i < u.len() && 0 <= j < u.len() implies #[trigger] boundary_ok(
        u[i],
        e + u[j],
        '%',
        ' ',
    ) by {
        assert(e + u[j] =~= u[j]);
    }
    assert forall|i: int| 0 <= i < u.len() implies (#[trigger] u[i]).len() >= 1 by {}
    lemma_replace_join(u, c, e, e, '%', ' ', seq!['%']);
}

proof fn lemma_closed_fixed(ps: Seq<Seq<char>>)
    requires
        ps.len() >= 1,
        forall|i: int| 0 <= i < ps.len() ==> plain(#[trigger] ps[i]),
    ensures
        replace_pair(join_with(ps.map_values(|p: Seq<char>| closed(p)), seq![' ']), ' ', '%', seq!['%'])
            == join_with(ps.map_values(|p: Seq<char>| closed(p)), Seq::empty()),
        replace_pair(join_with(ps.map_values(|p: Seq<char>| closed(p)), Seq::empty()), '%', ' ', seq!['%'])
            == join_with(ps.map_values(|p: Seq<char>| closed(p)), Seq::empty()),
{
    let c = ps.map_values(|p: Seq<char>| closed(p));
    let e = Seq::<char>::empty();
    let sp = seq![' '];
    lemma_replace_two(' ', '%', ' ', '%', seq!['%']);
    assert forall|i: int| 0 <= i < c.len() implies (#[trigger] c[i]).len() >= 1 by {}
    assert forall|i: int| 0 <= i < c.len() implies replace_pair(sp + #[trigger] c[i], ' ', '%', seq!['%']) == e + c[i]
        && replace_pair(e + c[i], '%', ' ', seq!['%']) == e + c[i] by {
        assert(plain(ps[i]));
        lemma_replace_name(ps[i], seq![' ', '%'], seq!['%'], ' ', '%', seq!['%']);
        lemma_replace_name(ps[i], seq!['%'], seq!['%'], '%', ' ', seq!['%']);
        assert(sp + c[i] =~= seq![' ', '%'] + ps[i] + seq!['%']);
        assert(e + c[i] =~= c[i]);
    }
    assert(plain(ps[0]));
    lemma_replace_name(ps[0], seq!['%'], seq!['%'], ' ', '%', seq!['%']);
    assert(e + c[0] =~= c[0]);
    assert forall|i: int, j: int| 0 <= i < c.len() && 0 <= j < c.len() implies #[trigger] boundary_ok(
        c[i],
        sp + c[j],
        ' ',
        '%',
    ) by {}
    assert forall|i: int, j: int| 0 <= i < c.len() && 0 <= j < c.len() implies #[trigger] boundary_ok(
        c[i],
        e + c[j],
        '%',
        ' ',
    ) by {
        assert(e + c[j] =~= c[j]);
    }
    lemma_replace_join(c, c, sp, e, ' ', '%', seq!['%']);
    lemma_replace_join(c, c, e, e, '%', ' ', seq!['%']);
}

proof fn lemma_closed_join_end(ps: Seq<Seq<char>>)
    requires
        ps.len() >= 1,
        plain(ps.last()),
    ensures
        join_with(ps.map_values(|p: Seq<char>| closed(p)), Seq::empty()) =~= join_with(
            ps.map_values(|p: Seq<char>| closed(p)),
            Seq::empty(),
        ).drop_last() + seq!['%'],
        join_with(ps.map_values(|p: Seq<char>| closed(p)), Seq::empty()).drop_last().len() >= 1,
        join_with(ps.map_values(|p: Seq<char>| closed(p)), Seq::empty()).drop_last().last() == ps.last().last(),
{
    let c = ps.map_values(|p: Seq<char>| closed(p));
    let e = Seq::<char>::empty();
    let q = ps.last();
    let pre = if ps.len() == 1 { e } else { join_with(c.drop_last(), e) + e };
    assert(c.last() == closed(q));
    assert(join_with(c, e) =~= pre + closed(q));
    let j = join_with(c, e);
    assert(j.drop_last() =~= pre + seq!['%'] + q);
}

proof fn lemma_third_tail(z: Seq<char>, q: Seq<char>)
    requires
        plain(q),
        z.len() >= 1,
        z.last() != '%',
    ensures
        replace_pair(z + seq!['%'], '%', '%', seq!['%', ' ', '%']) == replace_pair(z, '%', '%', seq!['%', ' ', '%'])
            + seq!['%'],
        replace_pair(z + seq!['%', '%'] + q + seq!['%'], '%', '%', seq!['%', ' ', '%']) == replace_pair(
            z,
            '%',
            '%',
            seq!['%', ' ', '%'],
        ) + seq!['%'] + seq![' '] + closed(q),
{
    let r = seq!['%', ' ', '%'];
    lemma_replace_two('%', '%', '%', '%', r);
    lemma_replace_split(z, seq!['%'], '%', '%', r);
    let tail = seq!['%', '%'] + q + seq!['%'];
    assert(z + seq!['%', '%'] + q + seq!['%'] =~= z + tail);
    lemma_replace_split(z, tail, '%', '%', r);
    lemma_replace_name(q, seq!['%', '%'], seq!['%'], '%', '%', r);
    assert(replace_pair(z, '%', '%', r) + r + q + seq!['%'] =~= replace_pair(z, '%', '%', r) + seq!['%'] + seq![' ']
        + closed(q));
}

proof fn lemma_third_replacement(ps: Seq<Seq<char>>)
    requires
        ps.len() >= 1,
        forall|i: int| 0 <= i < ps.len() ==> plain(#[trigger] ps[i]),
    ensures
        replace_pair(join_with(ps.map_values(|p: Seq<char>| closed(p)), Seq::empty()), '%', '%', seq!['%', ' ', '%'])
            == join_with(ps.map_values(|p: Seq<char>| closed(p)), seq![' ']),
    decreases ps.len(),
{
    let r = seq!['%', ' ', '%'];
    let e = Seq::<char>::empty();
    let c = ps.map_values(|p: Seq<char>| closed(p));
    let q = ps.last();
    assert(plain(ps[ps.len() - 1]));
    lemma_replace_two('%', '%', '%', '%', r);
    if ps.len() == 1 {
        assert(join_with(c, e) == c[0]);
        assert(join_with(c, seq![' ']) == c[0]);
        lemma_replace_name(q, seq!['%'], seq!['%'], '%', '%', r);
    } else {
        let rest = ps.drop_last();
        assert(rest.last() == ps[ps.len() - 2]);
        assert(plain(ps[ps.len() - 2]));
        lemma_third_replacement(rest);
        lemma_closed_join_end(rest);
        assert(rest.map_values(|p: Seq<char>| closed(p)) =~= c.drop_last());
        let x = join_with(c.drop_last(), e);
        let z = x.drop_last();
        lemma_third_tail(z, q);
        assert(c.last() == closed(q));
        assert(join_with(c, e) =~= x + e + c.last());
        assert(join_with(c, e) =~= z + seq!['%', '%'] + q + seq!['%']);
        assert(join_with(c, seq![' ']) =~= join_with(c.drop_last(), seq![' ']) + seq![' '] + c.last());
    }
}

/// The three replacements turn the spaced token form `% a % % b %` into the
/// placeholder text `%a% %b%`, and leave the placeholder text as it is,
/// where every name is non-empty and holds neither `%` nor a space.
pub proof fn lemma_normalize_placeholders(params: Seq<Seq<char>>)
    requires
        forall|i: int|
            0 <= i < params.len() ==> (#[trigger] params[i]).len() >= 1 && occurrences(params[i], '%') == 0
                && occurrences(params[i], ' ') == 0,
    ensures
        normalize(spaced_placeholders(params)) == placeholders(params),
        normalize(placeholders(params)) == placeholders(params),
{
    if params.len() == 0 {
        assert(spaced_placeholders(params) == Seq::<char>::empty());
        assert(placeholders(params) == Seq::<char>::empty());
    } else {
        assert forall|i: int| 0 <= i < params.len() implies plain(#[trigger] params[i]) by {
            lemma_no_char(params[i], '%');
            lemma_no_char(params[i], ' ');
        }
        reveal_strlit("%");
        reveal_strlit(" ");
        let c = params.map_values(|p: Seq<char>| closed(p));
        assert forall|i: int| 0 <= i < params.len() implies #[trigger] placeholder(params[i]) == closed(params[i]) by {
            assert("%"@ =~= seq!['%']);
            assert(placeholder(params[i]) =~= closed(params[i]));
        }
        assert(params.map_values(|p: Seq<char>| placeholder(p)) =~= c);
        assert(" "@ =~= seq![' ']);
        assert(placeholders(params) == join_with(c, seq![' ']));
        lemma_first_replacement(params);
        lemma_second_replacement(params);
        lemma_third_replacement(params);
        lemma_closed_fixed(params);
    }
}

} // verus!
