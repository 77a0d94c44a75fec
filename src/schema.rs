use vstd::prelude::*;

verus! {

/// Mathematical model of a positional argument declaration.
pub struct ArgumentModel {
    pub display_name: Seq<char>,
    pub arity: nat,
    pub description: Seq<char>,
}

/// Mathematical model of an option declaration.
pub struct OptionModel {
    pub long_form: Seq<char>,
    pub short_form: Seq<char>,
    pub arity: nat,
    pub description: Seq<char>,
}

/// Mathematical model of a whole command description.
pub struct SchemaModel {
    pub name: Seq<char>,
    pub description: Seq<char>,
    pub arguments: Seq<ArgumentModel>,
    pub options: Seq<OptionModel>,
}

/// A positional argument: consumed in declaration order, `arity` tokens at a time.
pub struct ArgumentSpec {
    pub display_name: String,
    pub arity: usize,
    pub description: String,
}

impl View for ArgumentSpec {
    type V = ArgumentModel;

    open spec fn view(&self) -> ArgumentModel {
        ArgumentModel {
            display_name: self.display_name@,
            arity: self.arity as nat,
            description: self.description@,
        }
    }
}

impl ArgumentSpec {
    /// A positional argument that takes a single token.
    pub fn new(display_name: String, description: String) -> (r: ArgumentSpec)
        ensures
            r@ == (ArgumentModel { display_name: display_name@, arity: 1, description: description@ }),
    {
        ArgumentSpec { display_name, arity: 1, description }
    }

    /// A positional argument that takes `arity` consecutive tokens.
    pub fn with_arity(display_name: String, arity: usize, description: String) -> (r: ArgumentSpec)
        ensures
            r@ == (ArgumentModel {
                display_name: display_name@,
                arity: arity as nat,
                description: description@,
            }),
    {
        ArgumentSpec { display_name, arity, description }
    }
}

/// An option, recognised by its long form or its (possibly empty) short form.
pub struct OptionSpec {
    pub long_form: String,
    pub short_form: String,
    pub arity: usize,
    pub description: String,
}

impl View for OptionSpec {
    type V = OptionModel;

    open spec fn view(&self) -> OptionModel {
        OptionModel {
            long_form: self.long_form@,
            short_form: self.short_form@,
            arity: self.arity as nat,
            description: self.description@,
        }
    }
}

impl OptionSpec {
    /// A flag: an option that takes no parameter.
    pub fn flag(long_form: String, short_form: String, description: String) -> (r: OptionSpec)
        ensures
            r@ == (OptionModel {
                long_form: long_form@,
                short_form: short_form@,
                arity: 0,
                description: description@,
            }),
    {
        OptionSpec { long_form, short_form, arity: 0, description }
    }

    /// An option followed by `arity` parameter tokens.
    pub fn with_arity(long_form: String, short_form: String, arity: usize, description: String) -> (r:
        OptionSpec)
        ensures
            r@ == (OptionModel {
                long_form: long_form@,
                short_form: short_form@,
                arity: arity as nat,
                description: description@,
            }),
    {
        OptionSpec { long_form, short_form, arity, description }
    }
}

/// Why a command description was refused.
pub enum SchemaError {
    /// Two options share a form, or an option's long form equals its own short form.
    DuplicateOptionForm(String),
    /// A positional argument was declared with arity zero.
    ZeroArityPositional(String),
    /// An option has an empty long form; the payload is its short form.
    EmptyLongForm(String),
}

/// Model of `SchemaError`.
pub enum SchemaErrorModel {
    DuplicateOptionForm(Seq<char>),
    ZeroArityPositional(Seq<char>),
    EmptyLongForm(Seq<char>),
}

impl View for SchemaError {
    type V = SchemaErrorModel;

    open spec fn view(&self) -> SchemaErrorModel {
        match self {
            SchemaError::DuplicateOptionForm(f) => SchemaErrorModel::DuplicateOptionForm(f@),
            SchemaError::ZeroArityPositional(n) => SchemaErrorModel::ZeroArityPositional(n@),
            SchemaError::EmptyLongForm(s) => SchemaErrorModel::EmptyLongForm(s@),
        }
    }
}

/// `f` is one of the forms by which option `o` is recognised.
pub open spec fn is_form_of(o: OptionModel, f: Seq<char>) -> bool {
    f == o.long_form || (o.short_form.len() > 0 && f == o.short_form)
}

/// `f` is a form of some option declared before index `i`.
pub open spec fn form_taken_before(opts: Seq<OptionModel>, i: int, f: Seq<char>) -> bool {
    exists|j: int| 0 <= j < i && #[trigger] is_form_of(opts[j], f)
}

/// What is wrong with option `i`, judged against the options declared before it.
pub open spec fn option_fault(opts: Seq<OptionModel>, i: int) -> Option<SchemaErrorModel> {
    let o = opts[i];
    if o.long_form.len() == 0 {
        Some(SchemaErrorModel::EmptyLongForm(o.short_form))
    } else if o.long_form == o.short_form || form_taken_before(opts, i, o.long_form) {
        Some(SchemaErrorModel::DuplicateOptionForm(o.long_form))
    } else if o.short_form.len() > 0 && form_taken_before(opts, i, o.short_form) {
        Some(SchemaErrorModel::DuplicateOptionForm(o.short_form))
    } else {
        None
    }
}

/// The first fault among the options from index `i` on.
pub open spec fn first_option_fault(opts: Seq<OptionModel>, i: int) -> Option<SchemaErrorModel>
    decreases opts.len() - i,
{
    if i < 0 || i >= opts.len() {
        None
    } else if option_fault(opts, i) is Some {
        option_fault(opts, i)
    } else {
        first_option_fault(opts, i + 1)
    }
}

/// The first positional with arity zero from index `i` on.
pub open spec fn first_zero_arity(args: Seq<ArgumentModel>, i: int) -> Option<int>
    decreases args.len() - i,
{
    if i < 0 || i >= args.len() {
        None
    } else if args[i].arity == 0 {
        Some(i)
    } else {
        first_zero_arity(args, i + 1)
    }
}

/// The error that building a schema from these declarations reports, if any:
/// positionals are checked first, then options in declaration order.
pub open spec fn schema_fault(args: Seq<ArgumentModel>, opts: Seq<OptionModel>) -> Option<
    SchemaErrorModel,
> {
    match first_zero_arity(args, 0) {
        Some(i) => Some(SchemaErrorModel::ZeroArityPositional(args[i].display_name)),
        None => first_option_fault(opts, 0),
    }
}

/// A schema is valid when building it reports no fault.
pub open spec fn schema_valid(s: SchemaModel) -> bool {
    schema_fault(s.arguments, s.options) is None
}

proof fn lemma_no_zero_arity(args: Seq<ArgumentModel>, i: int, k: int)
    requires
        0 <= i <= k < args.len(),
        first_zero_arity(args, i) is None,
    ensures
        args[k].arity > 0,
    decreases k - i,
{
    if i < k {
        lemma_no_zero_arity(args, i + 1, k);
    }
}

proof fn lemma_no_option_fault(opts: Seq<OptionModel>, i: int, k: int)
    requires
        0 <= i <= k < opts.len(),
        first_option_fault(opts, i) is None,
    ensures
        option_fault(opts, k) is None,
    decreases k - i,
{
    if i < k {
        lemma_no_option_fault(opts, i + 1, k);
    }
}

/// In a valid schema every positional takes at least one token.
pub proof fn lemma_valid_positive_arity(s: SchemaModel, k: int)
    requires
        schema_valid(s),
        0 <= k < s.arguments.len(),
    ensures
        s.arguments[k].arity > 0,
{
    assert(first_zero_arity(s.arguments, 0) is None);
    lemma_no_zero_arity(s.arguments, 0, k);
}

/// In a valid schema no token is a form of two different options.
pub proof fn lemma_valid_forms_distinct(s: SchemaModel, i: int, j: int, f: Seq<char>)
    requires
        schema_valid(s),
        0 <= j < i < s.options.len(),
        is_form_of(s.options[i], f),
    ensures
        !is_form_of(s.options[j], f),
{
    assert(first_option_fault(s.options, 0) is None);
    lemma_no_option_fault(s.options, 0, i);
    if is_form_of(s.options[j], f) {
        assert(form_taken_before(s.options, i, f));
    }
}

/// A validated command description: its declarations never change after construction.
pub struct CommandSchema {
    name: String,
    description: String,
    arguments: Vec<ArgumentSpec>,
    options: Vec<OptionSpec>,
}

impl View for CommandSchema {
    type V = SchemaModel;

    closed spec fn view(&self) -> SchemaModel {
        SchemaModel {
            name: self.name@,
            description: self.description@,
            arguments: self.arguments@.map_values(|a: ArgumentSpec| a@),
            options: self.options@.map_values(|o: OptionSpec| o@),
        }
    }
}

/// Whether `f` is a form of option `o`.
pub fn is_form(o: &OptionSpec, f: &String) -> (r: bool)
    ensures
        r == is_form_of(o@, f@),
{
    o.long_form == *f || (!o.short_form.as_str().is_empty() && o.short_form == *f)
}

fn taken_before(opts: &Vec<OptionSpec>, i: usize, f: &String) -> (r: bool)
    requires
        i <= opts.len(),
    ensures
        r == form_taken_before(opts@.map_values(|o: OptionSpec| o@), i as int, f@),
{
    let ghost m = opts@.map_values(|o: OptionSpec| o@);
    let mut j: usize = 0;
    while j < i
        invariant
            i <= opts.len(),
            j <= i,
            m == opts@.map_values(|o: OptionSpec| o@),
            forall|k: int| 0 <= k < j ==> !is_form_of(#[trigger] m[k], f@),
        decreases i - j,
    {
        if is_form(&opts[j], f) {
            assert(is_form_of(m[j as int], f@));
            return true;
        }
        j = j + 1;
    }
    false
}

impl CommandSchema {
    /// Validates the declarations and builds the schema. Positionals are checked
    /// first for arity zero, then each option in order against itself and the
    /// options before it.
    pub fn build(
        name: String,
        description: String,
        arguments: Vec<ArgumentSpec>,
        options: Vec<OptionSpec>,
    ) -> (r: Result<CommandSchema, SchemaError>)
        ensures
            schema_fault(
                arguments@.map_values(|a: ArgumentSpec| a@),
                options@.map_values(|o: OptionSpec| o@),
            ) is None <==> r is Ok,
            r matches Ok(s) ==> s@ == (SchemaModel {
                name: name@,
                description: description@,
                arguments: arguments@.map_values(|a: ArgumentSpec| a@),
                options: options@.map_values(|o: OptionSpec| o@),
            }),
            r matches Err(e) ==> schema_fault(
                arguments@.map_values(|a: ArgumentSpec| a@),
                options@.map_values(|o: OptionSpec| o@),
            ) == Some(e@),
    {
        let ghost am = arguments@.map_values(|a: ArgumentSpec| a@);
        let ghost om = options@.map_values(|o: OptionSpec| o@);
        let mut i: usize = 0;
        while i < arguments.len()
            invariant
                i <= arguments.len(),
                am == arguments@.map_values(|a: ArgumentSpec| a@),
                first_zero_arity(am, 0) == first_zero_arity(am, i as int),
            decreases arguments.len() - i,
        {
            if arguments[i].arity == 0 {
                return Err(SchemaError::ZeroArityPositional(arguments[i].display_name.clone()));
            }
            i = i + 1;
        }
        let mut i: usize = 0;
        while i < options.len()
            invariant
                i <= options.len(),
                om == options@.map_values(|o: OptionSpec| o@),
                am == arguments@.map_values(|a: ArgumentSpec| a@),
                first_zero_arity(am, 0) is None,
                first_option_fault(om, 0) == first_option_fault(om, i as int),
            decreases options.len() - i,
        {
            let o = &options[i];
            assert(om[i as int] == o@);
            if o.long_form.as_str().is_empty() {
                assert(first_option_fault(om, i as int) == option_fault(om, i as int));
                return Err(SchemaError::EmptyLongForm(o.short_form.clone()));
            }
            if o.long_form == o.short_form || taken_before(&options, i, &o.long_form) {
                return Err(SchemaError::DuplicateOptionForm(o.long_form.clone()));
            }
            if !o.short_form.as_str().is_empty() && taken_before(&options, i, &o.short_form) {
                return Err(SchemaError::DuplicateOptionForm(o.short_form.clone()));
            }
            assert(option_fault(om, i as int) is None);
            i = i + 1;
        }
        Ok(CommandSchema { name, description, arguments, options })
    }

    /// The command's name.
    pub fn name(&self) -> (r: &String)
        ensures
            r@ == self@.name,
    {
        &self.name
    }

    /// The command's one-line description.
    pub fn description(&self) -> (r: &String)
        ensures
            r@ == self@.description,
    {
        &self.description
    }

    /// The positional declarations, in declaration order.
    pub fn arguments(&self) -> (r: &Vec<ArgumentSpec>)
        ensures
            r@.map_values(|a: ArgumentSpec| a@) == self@.arguments,
    {
        &self.arguments
    }

    /// The option declarations, in declaration order.
    pub fn options(&self) -> (r: &Vec<OptionSpec>)
        ensures
            r@.map_values(|o: OptionSpec| o@) == self@.options,
    {
        &self.options
    }
}

} // verus!
