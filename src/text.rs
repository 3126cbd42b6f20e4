use crate::casing::{kebab_case, kebab_of};
use crate::decl::names_of;
use vstd::prelude::*;

verus! {

/// The parts joined in order, with `sep` between each two neighbours and
/// nowhere else.
pub open spec fn join_with(parts: Seq<Seq<char>>, sep: Seq<char>) -> Seq<char>
    decreases parts.len(),
{
    if parts.len() == 0 {
        Seq::empty()
    } else if parts.len() == 1 {
        parts[0]
    } else {
        join_with(parts.drop_last(), sep) + sep + parts.last()
    }
}

/// A parameter name between the `%` markers that the script expands.
pub open spec fn placeholder(name: Seq<char>) -> Seq<char> {
    "%"@ + name + "%"@
}

/// The placeholders of the parameters, separated by single spaces.
pub open spec fn placeholders(params: Seq<Seq<char>>) -> Seq<char> {
    join_with(params.map_values(|p: Seq<char>| placeholder(p)), " "@)
}

/// `Name(a, b)`: the header of a definition.
pub open spec fn header(name: Seq<char>, params: Seq<Seq<char>>) -> Seq<char> {
    name + "("@ + join_with(params, ", "@) + ")"@
}

/// The line that runs `tool` with the command name `kebab` and the
/// placeholders.
pub open spec fn body_line_with(tool: Seq<char>, kebab: Seq<char>, params: Seq<Seq<char>>) -> Seq<char> {
    "Run, "@ + tool + " "@ + kebab + " "@ + placeholders(params) + ", , Hide"@
}

/// The line that runs `tool` with the kebab-cased name and the placeholders.
pub open spec fn body_line(tool: Seq<char>, name: Seq<char>, params: Seq<Seq<char>>) -> Seq<char> {
    body_line_with(tool, kebab_of(name), params)
}

/// A whole definition whose body runs `tool` with the command name `kebab`:
/// a newline, the header, an opening brace, the indented body line and a
/// closing brace.
pub open spec fn definition_with(
    tool: Seq<char>,
    name: Seq<char>,
    kebab: Seq<char>,
    params: Seq<Seq<char>>,
) -> Seq<char> {
    "\n"@ + header(name, params) + " {\n    "@ + body_line_with(tool, kebab, params) + "\n}"@
}

/// A whole definition whose body runs `tool` with the kebab-cased name.
pub open spec fn definition(tool: Seq<char>, name: Seq<char>, params: Seq<Seq<char>>) -> Seq<char> {
    definition_with(tool, name, kebab_of(name), params)
}

pub(crate) proof fn lemma_join_push(parts: Seq<Seq<char>>, sep: Seq<char>, x: Seq<char>)
    requires
        parts.len() >= 1,
    ensures
        join_with(parts.push(x), sep) == join_with(parts, sep) + sep + x,
{
    assert(parts.push(x).drop_last() =~= parts);
}

/// Appends the names to `out`, separated by `, `.
fn append_params(out: &mut String, params: &Vec<String>)
    ensures
        final(out)@ == old(out)@ + join_with(names_of(params@), ", "@),
{
    let ghost start = out@;
    let n = params.len();
    let mut i: usize = 0;
    while i < n
        invariant
            n == params.len(),
            i <= n,
            out@ == start + join_with(names_of(params@).take(i as int), ", "@),
        decreases n - i,
    {
        let ghost names = names_of(params@);
        if i > 0 {
            out.append(", ");
            proof {
                lemma_join_push(names.take(i as int), ", "@, names[i as int]);
            }
        } else {
            assert(names.take(1) =~= seq![names[0]]);
        }
        out.append(params[i].as_str());
        proof {
            assert(names.take(i as int).push(names[i as int]) =~= names.take(i + 1));
            assert(start + join_with(names.take(i + 1), ", "@) =~= out@);
        }
        i = i + 1;
    }
    assert(names_of(params@).take(n as int) =~= names_of(params@));
}

/// Appends the placeholders of the names to `out`, separated by single
/// spaces.
fn append_placeholders(out: &mut String, params: &Vec<String>)
    ensures
        final(out)@ == old(out)@ + placeholders(names_of(params@)),
{
    let ghost start = out@;
    let ghost marks = names_of(params@).map_values(|p: Seq<char>| placeholder(p));
    let n = params.len();
    let mut i: usize = 0;
    while i < n
        invariant
            n == params.len(),
            i <= n,
            marks == names_of(params@).map_values(|p: Seq<char>| placeholder(p)),
            out@ == start + join_with(marks.take(i as int), " "@),
        decreases n - i,
    {
        if i > 0 {
            out.append(" ");
            proof {
                lemma_join_push(marks.take(i as int), " "@, marks[i as int]);
            }
        } else {
            assert(marks.take(1) =~= seq![marks[0]]);
        }
        out.append("%");
        out.append(params[i].as_str());
        out.append("%");
        proof {
            assert(marks.take(i as int).push(marks[i as int]) =~= marks.take(i + 1));
            assert(start + join_with(marks.take(i + 1), " "@) =~= out@);
        }
        i = i + 1;
    }
    assert(marks.take(n as int) =~= marks);
}

/// Renders one definition of `name` with the given parameters, whose body
/// runs `tool` with the command name `kebab`.
pub fn render_definition_with(tool: &str, name: &str, kebab: &str, params: &Vec<String>) -> (r: String)
    ensures
        r@ == definition_with(tool@, name@, kebab@, names_of(params@)),
{
    let mut out = String::from_str("\n");
    out.append(name);
    out.append("(");
    append_params(&mut out, params);
    out.append(")");
    out.append(" {\n    ");
    out.append("Run, ");
    out.append(tool);
    out.append(" ");
    out.append(kebab);
    out.append(" ");
    append_placeholders(&mut out, params);
    out.append(", , Hide");
    out.append("\n}");
    assert(out@ =~= definition_with(tool@, name@, kebab@, names_of(params@)));
    out
}

/// Renders one definition of `name` with the given parameters, whose body
/// runs `tool` with the kebab-cased name.
pub fn render_definition(tool: &str, name: &str, params: &Vec<String>) -> (r: String)
    ensures
        r@ == definition(tool@, name@, names_of(params@)),
{
    let kebab = kebab_case(name);
    render_definition_with(tool, name, kebab.as_str(), params)
}

} // verus!
