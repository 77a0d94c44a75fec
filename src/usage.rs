use vstd::prelude::*;
use crate::schema::{ArgumentModel, ArgumentSpec, CommandSchema, OptionModel, OptionSpec, SchemaModel};

verus! {

/// The items joined by `sep`, in order.
pub open spec fn join(items: Seq<Seq<char>>, sep: Seq<char>) -> Seq<char>
    decreases items.len(),
{
    if items.len() == 0 {
        Seq::empty()
    } else if items.len() == 1 {
        items[0]
    } else {
        join(items.drop_last(), sep) + sep + items.last()
    }
}

/// The line describing one positional argument.
pub open spec fn argument_line(a: ArgumentModel) -> Seq<char> {
    a.display_name + "\t"@ + a.description
}

/// The line describing one option.
pub open spec fn option_line(o: OptionModel) -> Seq<char> {
    o.short_form + ", "@ + o.long_form + "\t"@ + o.description
}

/// The usage text of a schema: description, synopsis with the positionals in
/// declared order, one line per positional, one line per option.
pub open spec fn usage_text(s: SchemaModel) -> Seq<char> {
    s.description + "\n\nUsage: "@ + s.name + " [options] "@ + join(
        s.arguments.map_values(|a: ArgumentModel| a.display_name),
        " "@,
    ) + "\n\nArguments:\n"@ + join(s.arguments.map_values(|a: ArgumentModel| argument_line(a)), "\n"@)
        + "\n\nOptions:\n"@ + join(s.options.map_values(|o: OptionModel| option_line(o)), "\n"@)
}

/// Appends the items, separated by `sep`, to `out`.
fn push_joined(out: &mut String, items: &Vec<String>, sep: &str)
    ensures
        final(out)@ == old(out)@ + join(items@.map_values(|s: String| s@), sep@),
{
    let ghost start = out@;
    let ghost iv = items@.map_values(|s: String| s@);
    let mut i: usize = 0;
    while i < items.len()
        invariant
            i <= items.len(),
            iv == items@.map_values(|s: String| s@),
            out@ == start + join(iv.take(i as int), sep@),
        decreases items.len() - i,
    {
        let ghost before = out@;
        if i > 0 {
            out.append(sep);
        }
        out.append(items[i].as_str());
        proof {
            let t = iv.take(i + 1);
            assert(t.drop_last() =~= iv.take(i as int));
            assert(t.last() == iv[i as int]);
            if i == 0 {
                assert(iv.take(0) =~= Seq::<Seq<char>>::empty());
            }
            assert(out@ =~= start + join(t, sep@));
        }
        i = i + 1;
    }
    assert(iv.take(items.len() as int) =~= iv);
}

fn argument_names(args: &Vec<ArgumentSpec>) -> (r: Vec<String>)
    ensures
        r@.map_values(|s: String| s@) == args@.map_values(|a: ArgumentSpec| a@).map_values(
            |a: ArgumentModel| a.display_name,
        ),
{
    let mut r: Vec<String> = Vec::new();
    let mut i: usize = 0;
    while i < args.len()
        invariant
            i <= args.len(),
            r@.len() == i,
            forall|k: int| 0 <= k < i ==> #[trigger] r@[k]@ == args@[k].display_name@,
        decreases args.len() - i,
    {
        r.push(args[i].display_name.clone());
        i = i + 1;
    }
    assert(r@.map_values(|s: String| s@) =~= args@.map_values(|a: ArgumentSpec| a@).map_values(
        |a: ArgumentModel| a.display_name,
    ));
    r
}

fn argument_lines(args: &Vec<ArgumentSpec>) -> (r: Vec<String>)
    ensures
        r@.map_values(|s: String| s@) == args@.map_values(|a: ArgumentSpec| a@).map_values(
            |a: ArgumentModel| argument_line(a),
        ),
{
    let mut r: Vec<String> = Vec::new();
    let mut i: usize = 0;
    while i < args.len()
        invariant
            i <= args.len(),
            r@.len() == i,
            forall|k: int| 0 <= k < i ==> #[trigger] r@[k]@ == argument_line(args@[k]@),
        decreases args.len() - i,
    {
        let mut line = args[i].display_name.clone();
        line.append("\t");
        line.append(args[i].description.as_str());
        r.push(line);
        i = i + 1;
    }
    assert(r@.map_values(|s: String| s@) =~= args@.map_values(|a: ArgumentSpec| a@).map_values(
        |a: ArgumentModel| argument_line(a),
    ));
    r
}

fn option_lines(opts: &Vec<OptionSpec>) -> (r: Vec<String>)
    ensures
        r@.map_values(|s: String| s@) == opts@.map_values(|o: OptionSpec| o@).map_values(
            |o: OptionModel| option_line(o),
        ),
{
    let mut r: Vec<String> = Vec::new();
    let mut i: usize = 0;
    while i < opts.len()
        invariant
            i <= opts.len(),
            r@.len() == i,
            forall|k: int| 0 <= k < i ==> #[trigger] r@[k]@ == option_line(opts@[k]@),
        decreases opts.len() - i,
    {
        let mut line = opts[i].short_form.clone();
        line.append(", ");
        line.append(opts[i].long_form.as_str());
        line.append("\t");
        line.append(opts[i].description.as_str());
        r.push(line);
        i = i + 1;
    }
    assert(r@.map_values(|s: String| s@) =~= opts@.map_values(|o: OptionSpec| o@).map_values(
        |o: OptionModel| option_line(o),
    ));
    r
}

/// Renders the usage text of a schema; positionals and options keep their
/// declared order.
pub fn render(schema: &CommandSchema) -> (r: String)
    ensures
        r@ == usage_text(schema@),
{
    let args = schema.arguments();
    let opts = schema.options();
    let mut out = schema.description().clone();
    out.append("\n\nUsage: ");
    out.append(schema.name().as_str());
    out.append(" [options] ");
    push_joined(&mut out, &argument_names(args), " ");
    out.append("\n\nArguments:\n");
    push_joined(&mut out, &argument_lines(args), "\n");
    out.append("\n\nOptions:\n");
    push_joined(&mut out, &option_lines(opts), "\n");
    out
}

/// Rendering depends on the schema's contents alone: equal schemas give equal text.
pub proof fn lemma_render_deterministic(a: SchemaModel, b: SchemaModel)
    requires
        a == b,
    ensures
        usage_text(a) == usage_text(b),
{
}

} // verus!
