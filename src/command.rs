use vstd::prelude::*;
use crate::parser::{parse, parse_model, token_views, Entries, ParseError, ParseErrorModel, ParsedArguments};
use crate::schema::{CommandSchema, SchemaModel};
use crate::usage::{render, usage_text};

verus! {

/// A command bound to its schema: the single entry point for a program that
/// wants its usage text or its arguments parsed.
pub struct Command {
    schema: CommandSchema,
}

impl View for Command {
    type V = SchemaModel;

    closed spec fn view(&self) -> SchemaModel {
        self.schema@
    }
}

impl Command {
    /// Binds a command to its schema for the rest of its lifetime.
    pub fn new(schema: CommandSchema) -> (r: Command)
        ensures
            r@ == schema@,
    {
        Command { schema }
    }

    /// The schema this command was built with.
    pub fn schema(&self) -> (r: &CommandSchema)
        ensures
            r@ == self@,
    {
        &self.schema
    }

    /// The usage text of the bound schema.
    pub fn usage(&self) -> (r: String)
        ensures
            r@ == usage_text(self@),
    {
        render(&self.schema)
    }

    /// Parses the raw arguments (program name already removed) against the bound schema.
    pub fn parse(&self, raw_args: &Vec<String>) -> (r: Result<ParsedArguments, ParseError>)
        ensures
            r matches Ok(p) ==> parse_model(self@, token_views(raw_args@)) == Ok::<
                Entries,
                ParseErrorModel,
            >(p@),
            r matches Err(e) ==> parse_model(self@, token_views(raw_args@)) == Err::<
                Entries,
                ParseErrorModel,
            >(e@),
    {
        parse(&self.schema, raw_args)
    }
}

} // verus!
