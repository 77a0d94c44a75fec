use vstd::prelude::*;
use crate::schema::{
    is_form, is_form_of, lemma_valid_forms_distinct, lemma_valid_positive_arity, schema_valid,
    ArgumentSpec, CommandSchema, OptionModel, OptionSpec, SchemaModel,
};

verus! {

/// Model of the parse result: one entry per matched positional or option, in
/// the order the tokens were read; each entry is a key and its raw values.
pub type Entries = Seq<(Seq<char>, Seq<Seq<char>>)>;

/// Why a token sequence was refused.
pub enum ParseError {
    /// A token that starts with `-` and is no declared form.
    UnknownOption(String),
    /// An option (named by its key) was followed by fewer parameters than its arity.
    MissingOptionParameter(String),
    /// A positional (named by its display name) had fewer tokens left than its arity.
    MissingPositionalValue(String),
    /// The input ended before this positional received its values.
    MissingRequiredArgument(String),
    /// A positional token arrived after every positional was filled.
    UnexpectedArgument(String),
}

/// Model of `ParseError`.
pub enum ParseErrorModel {
    UnknownOption(Seq<char>),
    MissingOptionParameter(Seq<char>),
    MissingPositionalValue(Seq<char>),
    MissingRequiredArgument(Seq<char>),
    UnexpectedArgument(Seq<char>),
}

impl View for ParseError {
    type V = ParseErrorModel;

    open spec fn view(&self) -> ParseErrorModel {
        match self {
            ParseError::UnknownOption(s) => ParseErrorModel::UnknownOption(s@),
            ParseError::MissingOptionParameter(s) => ParseErrorModel::MissingOptionParameter(s@),
            ParseError::MissingPositionalValue(s) => ParseErrorModel::MissingPositionalValue(s@),
            ParseError::MissingRequiredArgument(s) => ParseErrorModel::MissingRequiredArgument(s@),
            ParseError::UnexpectedArgument(s) => ParseErrorModel::UnexpectedArgument(s@),
        }
    }
}

/// One recorded key with the raw values consumed for it.
pub struct ParsedEntry {
    pub key: String,
    pub values: Vec<String>,
}

impl View for ParsedEntry {
    type V = (Seq<char>, Seq<Seq<char>>);

    open spec fn view(&self) -> (Seq<char>, Seq<Seq<char>>) {
        (self.key@, self.values@.map_values(|v: String| v@))
    }
}

/// The successful result of a parse.
pub struct ParsedArguments {
    entries: Vec<ParsedEntry>,
}

impl View for ParsedArguments {
    type V = Entries;

    closed spec fn view(&self) -> Entries {
        self.entries@.map_values(|e: ParsedEntry| e@)
    }
}

/// The views of a token sequence.
pub open spec fn token_views(tokens: Seq<String>) -> Seq<Seq<char>> {
    tokens.map_values(|t: String| t@)
}

/// A token that starts with `-` is meant as an option.
pub open spec fn looks_like_option(t: Seq<char>) -> bool {
    t.len() > 0 && t[0] == '-'
}

/// The key under which an option is recorded: its long form without its
/// leading `--` (or single `-`).
pub open spec fn option_key(long_form: Seq<char>) -> Seq<char> {
    if long_form.len() >= 2 && long_form[0] == '-' && long_form[1] == '-' {
        long_form.subrange(2, long_form.len() as int)
    } else if long_form.len() >= 1 && long_form[0] == '-' {
        long_form.subrange(1, long_form.len() as int)
    } else {
        long_form
    }
}

/// The first option from index `i` on of which `t` is a form.
pub open spec fn find_option(opts: Seq<OptionModel>, t: Seq<char>, i: int) -> Option<int>
    decreases opts.len() - i,
{
    if i < 0 || i >= opts.len() {
        None
    } else if is_form_of(opts[i], t) {
        Some(i)
    } else {
        find_option(opts, t, i + 1)
    }
}

/// `n` tokens from index `start` on exist, and none of them is an option form.
pub open spec fn params_available(
    opts: Seq<OptionModel>,
    tokens: Seq<Seq<char>>,
    start: int,
    n: int,
) -> bool {
    &&& start + n <= tokens.len()
    &&& forall|k: int| start <= k < start + n ==> find_option(opts, #[trigger] tokens[k], 0) is None
}

/// Puts `acc` in front of the entries of a successful result.
pub open spec fn prefixed(acc: Entries, r: Result<Entries, ParseErrorModel>) -> Result<
    Entries,
    ParseErrorModel,
> {
    match r {
        Ok(rest) => Ok(acc + rest),
        Err(e) => Err(e),
    }
}

/// The parse of `tokens` from index `cur` on, with positionals before `pos` filled.
pub open spec fn parse_from(s: SchemaModel, tokens: Seq<Seq<char>>, cur: int, pos: int) -> Result<
    Entries,
    ParseErrorModel,
>
    decreases tokens.len() - cur, s.arguments.len() - pos,
{
    if cur < 0 || pos < 0 || pos > s.arguments.len() || cur >= tokens.len() {
        if 0 <= pos < s.arguments.len() {
            Err(ParseErrorModel::MissingRequiredArgument(s.arguments[pos].display_name))
        } else {
            Ok(Seq::empty())
        }
    } else {
        let t = tokens[cur];
        match find_option(s.options, t, 0) {
            Some(i) => {
                let o = s.options[i];
                if params_available(s.options, tokens, cur + 1, o.arity as int) {
                    let next = cur + 1 + o.arity;
                    prefixed(
                        seq![(option_key(o.long_form), tokens.subrange(cur + 1, next))],
                        parse_from(s, tokens, next, pos),
                    )
                } else {
                    Err(ParseErrorModel::MissingOptionParameter(option_key(o.long_form)))
                }
            },
            None => {
                if looks_like_option(t) {
                    Err(ParseErrorModel::UnknownOption(t))
                } else if pos >= s.arguments.len() {
                    Err(ParseErrorModel::UnexpectedArgument(t))
                } else {
                    let a = s.arguments[pos];
                    let next = cur + a.arity;
                    if next > tokens.len() {
                        Err(ParseErrorModel::MissingPositionalValue(a.display_name))
                    } else {
                        prefixed(
                            seq![(a.display_name, tokens.subrange(cur, next))],
                            parse_from(s, tokens, next, pos + 1),
                        )
                    }
                }
            },
        }
    }
}

/// The result of parsing `tokens` against schema `s`.
pub open spec fn parse_model(s: SchemaModel, tokens: Seq<Seq<char>>) -> Result<
    Entries,
    ParseErrorModel,
> {
    parse_from(s, tokens, 0, 0)
}

/// The values of the first entry recorded under `key`.
pub open spec fn lookup(entries: Entries, key: Seq<char>, i: int) -> Option<Seq<Seq<char>>>
    decreases entries.len() - i,
{
    if i < 0 || i >= entries.len() {
        None
    } else if entries[i].0 == key {
        Some(entries[i].1)
    } else {
        lookup(entries, key, i + 1)
    }
}

impl ParsedArguments {
    /// The number of recorded entries.
    pub fn len(&self) -> (r: usize)
        ensures
            r == self@.len(),
    {
        self.entries.len()
    }

    /// The entry recorded at index `i`.
    pub fn entry(&self, i: usize) -> (r: &ParsedEntry)
        requires
            i < self@.len(),
        ensures
            r@ == self@[i as int],
    {
        &self.entries[i]
    }

    /// The values of the first entry recorded under `key`, if there is one.
    pub fn get(&self, key: &str) -> (r: Option<&Vec<String>>)
        ensures
            r matches Some(v) ==> lookup(self@, key@, 0) == Some(v@.map_values(|s: String| s@)),
            r is None ==> lookup(self@, key@, 0) is None,
    {
        let k = key.to_owned();
        let ghost ev = self@;
        let mut i: usize = 0;
        while i < self.entries.len()
            invariant
                i <= self.entries.len(),
                ev == self.entries@.map_values(|e: ParsedEntry| e@),
                lookup(ev, key@, 0) == lookup(ev, key@, i as int),
                k@ == key@,
            decreases self.entries.len() - i,
        {
            assert(ev[i as int] == self.entries@[i as int]@);
            if self.entries[i].key == k {
                return Some(&self.entries[i].values);
            }
            i = i + 1;
        }
        None
    }

    /// Whether some entry is recorded under `key`.
    pub fn contains(&self, key: &str) -> (r: bool)
        ensures
            r == lookup(self@, key@, 0) is Some,
    {
        self.get(key).is_some()
    }
}

fn find_option_index(opts: &Vec<OptionSpec>, t: &String) -> (r: Option<usize>)
    ensures
        r matches Some(i) ==> i < opts.len() && find_option(
            opts@.map_values(|o: OptionSpec| o@),
            t@,
            0,
        ) == Some(i as int),
        r is None ==> find_option(opts@.map_values(|o: OptionSpec| o@), t@, 0) is None,
{
    let ghost om = opts@.map_values(|o: OptionSpec| o@);
    let mut i: usize = 0;
    while i < opts.len()
        invariant
            i <= opts.len(),
            om == opts@.map_values(|o: OptionSpec| o@),
            find_option(om, t@, 0) == find_option(om, t@, i as int),
        decreases opts.len() - i,
    {
        assert(om[i as int] == opts@[i as int]@);
        if is_form(&opts[i], t) {
            return Some(i);
        }
        i = i + 1;
    }
    None
}

fn is_option_like(t: &String) -> (r: bool)
    ensures
        r == looks_like_option(t@),
{
    let s = t.as_str();
    s.unicode_len() > 0 && s.get_char(0) == '-'
}

/// The key under which the option with this long form is recorded.
pub fn key_of_option(long_form: &String) -> (r: String)
    ensures
        r@ == option_key(long_form@),
{
    let s = long_form.as_str();
    let n = s.unicode_len();
    let start: usize = if n >= 2 && s.get_char(0) == '-' && s.get_char(1) == '-' {
        2
    } else if n >= 1 && s.get_char(0) == '-' {
        1
    } else {
        0
    };
    let mut r = String::new();
    r.append(s.substring_char(start, n));
    assert(long_form@.subrange(0, n as int) =~= long_form@);
    r
}

fn params_free(opts: &Vec<OptionSpec>, tokens: &Vec<String>, start: usize, n: usize) -> (r: bool)
    requires
        start <= tokens.len(),
    ensures
        r == params_available(
            opts@.map_values(|o: OptionSpec| o@),
            token_views(tokens@),
            start as int,
            n as int,
        ),
{
    let ghost om = opts@.map_values(|o: OptionSpec| o@);
    let ghost tv = token_views(tokens@);
    if n > tokens.len() - start {
        return false;
    }
    let mut k: usize = 0;
    while k < n
        invariant
            start + n <= tokens.len(),
            k <= n,
            om == opts@.map_values(|o: OptionSpec| o@),
            tv == token_views(tokens@),
            forall|j: int| start <= j < start + k ==> find_option(om, #[trigger] tv[j], 0) is None,
        decreases n - k,
    {
        assert(tv[start + k] == tokens@[start + k]@);
        if find_option_index(opts, &tokens[start + k]).is_some() {
            return false;
        }
        k = k + 1;
    }
    true
}

fn copy_tokens(tokens: &Vec<String>, from: usize, to: usize) -> (r: Vec<String>)
    requires
        from <= to <= tokens.len(),
    ensures
        r@.map_values(|v: String| v@) == token_views(tokens@).subrange(from as int, to as int),
{
    let mut r: Vec<String> = Vec::new();
    let mut k: usize = from;
    while k < to
        invariant
            from <= k <= to <= tokens.len(),
            r@.len() == k - from,
            forall|j: int| 0 <= j < k - from ==> #[trigger] r@[j]@ == tokens@[from + j]@,
        decreases to - k,
    {
        r.push(tokens[k].clone());
        k = k + 1;
    }
    assert(r@.map_values(|v: String| v@) =~= token_views(tokens@).subrange(from as int, to as int));
    r
}

proof fn lemma_prefixed_push(acc: Entries, e: (Seq<char>, Seq<Seq<char>>), r: Result<Entries, ParseErrorModel>)
    ensures
        prefixed(acc, prefixed(seq![e], r)) == prefixed(acc.push(e), r),
{
    if let Ok(rest) = r {
        assert(acc + (seq![e] + rest) =~= acc.push(e) + rest);
    }
}

/// Parses `tokens` against `schema` in one left-to-right pass: an option form
/// takes the next `arity` tokens (none of them an option form), any other
/// token starting with `-` is refused, and every other token fills the next
/// positional with `arity` tokens from itself on.
pub fn parse(schema: &CommandSchema, tokens: &Vec<String>) -> (r: Result<ParsedArguments, ParseError>)
    ensures
        r matches Ok(p) ==> parse_model(schema@, token_views(tokens@)) == Ok::<Entries, ParseErrorModel>(p@),
        r matches Err(e) ==> parse_model(schema@, token_views(tokens@)) == Err::<Entries, ParseErrorModel>(e@),
{
    let args = schema.arguments();
    let opts = schema.options();
    let ghost s = schema@;
    let ghost tv = token_views(tokens@);
    let mut entries: Vec<ParsedEntry> = Vec::new();
    let mut cur: usize = 0;
    let mut pos: usize = 0;
    while cur < tokens.len()
        invariant
            cur <= tokens.len(),
            pos <= args.len(),
            s == schema@,
            tv == token_views(tokens@),
            args@.map_values(|a: ArgumentSpec| a@) == s.arguments,
            opts@.map_values(|o: OptionSpec| o@) == s.options,
            parse_model(s, tv) == prefixed(
                entries@.map_values(|e: ParsedEntry| e@),
                parse_from(s, tv, cur as int, pos as int),
            ),
        decreases tokens.len() - cur, args.len() - pos,
    {
        let ghost acc = entries@.map_values(|e: ParsedEntry| e@);
        let t = &tokens[cur];
        assert(tv[cur as int] == t@);
        match find_option_index(opts, t) {
            Some(i) => {
                let o = &opts[i];
                assert(s.options[i as int] == o@);
                if !params_free(opts, tokens, cur + 1, o.arity) {
                    return Err(ParseError::MissingOptionParameter(key_of_option(&o.long_form)));
                }
                let next = cur + 1 + o.arity;
                let entry = ParsedEntry {
                    key: key_of_option(&o.long_form),
                    values: copy_tokens(tokens, cur + 1, next),
                };
                proof {
                    lemma_prefixed_push(acc, entry@, parse_from(s, tv, next as int, pos as int));
                }
                entries.push(entry);
                assert(entries@.map_values(|e: ParsedEntry| e@) =~= acc.push(entry@));
                cur = next;
            },
            None => {
                if is_option_like(t) {
                    return Err(ParseError::UnknownOption(t.clone()));
                }
                if pos >= args.len() {
                    return Err(ParseError::UnexpectedArgument(t.clone()));
                }
                let a = &args[pos];
                assert(s.arguments[pos as int] == a@);
                if a.arity > tokens.len() - cur {
                    return Err(ParseError::MissingPositionalValue(a.display_name.clone()));
                }
                let next = cur + a.arity;
                let entry = ParsedEntry {
                    key: a.display_name.clone(),
                    values: copy_tokens(tokens, cur, next),
                };
                proof {
                    lemma_prefixed_push(acc, entry@, parse_from(s, tv, next as int, pos + 1));
                }
                entries.push(entry);
                assert(entries@.map_values(|e: ParsedEntry| e@) =~= acc.push(entry@));
                cur = next;
                pos = pos + 1;
            },
        }
    }
    if pos < args.len() {
        assert(s.arguments[pos as int] == args@[pos as int]@);
        return Err(ParseError::MissingRequiredArgument(args[pos].display_name.clone()));
    }
    let ghost acc = entries@.map_values(|e: ParsedEntry| e@);
    assert(acc + Seq::<(Seq<char>, Seq<Seq<char>>)>::empty() =~= acc);
    Ok(ParsedArguments { entries })
}

proof fn lemma_find_none(opts: Seq<OptionModel>, t: Seq<char>, i: int)
    requires
        0 <= i,
        forall|j: int| 0 <= j < opts.len() ==> !is_form_of(#[trigger] opts[j], t),
    ensures
        find_option(opts, t, i) is None,
    decreases opts.len() - i,
{
    if i < opts.len() {
        lemma_find_none(opts, t, i + 1);
    }
}

proof fn lemma_find_resolves(s: SchemaModel, i: int, t: Seq<char>, k: int)
    requires
        schema_valid(s),
        0 <= k <= i < s.options.len(),
        is_form_of(s.options[i], t),
    ensures
        find_option(s.options, t, k) == Some(i),
    decreases i - k,
{
    if k < i {
        lemma_valid_forms_distinct(s, i, k, t);
        lemma_find_resolves(s, i, t, k + 1);
    }
}

/// Parsing depends on the schema and the tokens alone: equal inputs give equal results.
pub proof fn lemma_parse_deterministic(
    s1: SchemaModel,
    s2: SchemaModel,
    t1: Seq<Seq<char>>,
    t2: Seq<Seq<char>>,
)
    requires
        s1 == s2,
        t1 == t2,
    ensures
        parse_model(s1, t1) == parse_model(s2, t2),
{
}

/// A value that the parser never mistakes for an option: it does not start
/// with `-` and is no declared form.
pub open spec fn plain_value(s: SchemaModel, v: Seq<char>) -> bool {
    &&& !looks_like_option(v)
    &&& forall|j: int| 0 <= j < s.options.len() ==> !is_form_of(#[trigger] s.options[j], v)
}

/// The entries a parse of one group of values per positional yields.
pub open spec fn positional_entries(s: SchemaModel, groups: Seq<Seq<Seq<char>>>) -> Entries {
    Seq::new(groups.len(), |k: int| (s.arguments[k].display_name, groups[k]))
}

proof fn lemma_round_trip_from(
    s: SchemaModel,
    groups: Seq<Seq<Seq<char>>>,
    tokens: Seq<Seq<char>>,
    cur: int,
    pos: int,
)
    requires
        schema_valid(s),
        groups.len() == s.arguments.len(),
        forall|k: int| 0 <= k < groups.len() ==> (#[trigger] groups[k]).len() == s.arguments[k].arity,
        forall|k: int, m: int|
            0 <= k < groups.len() && 0 <= m < groups[k].len() ==> plain_value(s, #[trigger] groups[k][m]),
        0 <= pos <= groups.len(),
        0 <= cur <= tokens.len(),
        tokens.subrange(cur, tokens.len() as int) == groups.skip(pos).flatten(),
    ensures
        parse_from(s, tokens, cur, pos) == Ok::<Entries, ParseErrorModel>(
            positional_entries(s, groups).subrange(pos, groups.len() as int),
        ),
    decreases groups.len() - pos,
{
    let n = groups.len() as int;
    let rest = groups.skip(pos);
    if pos == n {
        assert(rest.len() == 0);
        assert(tokens.subrange(cur, tokens.len() as int).len() == 0);
        assert(positional_entries(s, groups).subrange(pos, n) =~= Seq::empty());
    } else {
        let g = groups[pos];
        let a = s.arguments[pos];
        lemma_valid_positive_arity(s, pos);
        assert(rest.first() == g);
        assert(rest.drop_first() =~= groups.skip(pos + 1));
        assert(rest.flatten() == g + groups.skip(pos + 1).flatten());
        let next = cur + a.arity;
        let tail = tokens.subrange(cur, tokens.len() as int);
        assert(tail.len() == g.len() + groups.skip(pos + 1).flatten().len());
        assert(tokens.subrange(cur, next) =~= g) by {
            assert forall|m: int| 0 <= m < g.len() implies tokens[cur + m] == #[trigger] g[m] by {
                assert(tail[m] == tokens[cur + m]);
            }
        }
        assert(tokens.subrange(next, tokens.len() as int) =~= groups.skip(pos + 1).flatten()) by {
            let after = groups.skip(pos + 1).flatten();
            assert forall|m: int| 0 <= m < tokens.len() - next implies tokens[next + m]
                == #[trigger] after[m] by {
                assert(tail[g.len() + m] == tokens[next + m]);
            }
        }
        assert(tokens[cur] == g[0]);
        assert(plain_value(s, g[0]));
        lemma_find_none(s.options, g[0], 0);
        lemma_round_trip_from(s, groups, tokens, next, pos + 1);
        assert(seq![(a.display_name, g)] + positional_entries(s, groups).subrange(pos + 1, n)
            =~= positional_entries(s, groups).subrange(pos, n));
    }
}

/// Tokens made of one group of plain values per positional, each group as long
/// as that positional's arity, in declared order, parse to exactly those groups
/// under the positionals' names.
pub proof fn lemma_positional_round_trip(s: SchemaModel, groups: Seq<Seq<Seq<char>>>)
    requires
        schema_valid(s),
        groups.len() == s.arguments.len(),
        forall|k: int| 0 <= k < groups.len() ==> (#[trigger] groups[k]).len() == s.arguments[k].arity,
        forall|k: int, m: int|
            0 <= k < groups.len() && 0 <= m < groups[k].len() ==> plain_value(s, #[trigger] groups[k][m]),
    ensures
        parse_model(s, groups.flatten()) == Ok::<Entries, ParseErrorModel>(positional_entries(s, groups)),
{
    let tokens = groups.flatten();
    assert(groups.skip(0) =~= groups);
    assert(tokens.subrange(0, tokens.len() as int) =~= tokens);
    lemma_round_trip_from(s, groups, tokens, 0, 0);
    assert(positional_entries(s, groups).subrange(0, groups.len() as int) =~= positional_entries(s, groups));
}

/// Wherever the parse reaches a form of an option that is followed by fewer
/// tokens than the option's arity, it fails with a missing option parameter;
/// the values are never truncated.
pub proof fn lemma_option_arity_enforced(
    s: SchemaModel,
    i: int,
    tokens: Seq<Seq<char>>,
    cur: int,
    pos: int,
)
    requires
        schema_valid(s),
        0 <= i < s.options.len(),
        0 <= cur < tokens.len(),
        0 <= pos <= s.arguments.len(),
        is_form_of(s.options[i], tokens[cur]),
        tokens.len() - cur - 1 < s.options[i].arity,
    ensures
        parse_from(s, tokens, cur, pos) == Err::<Entries, ParseErrorModel>(
            ParseErrorModel::MissingOptionParameter(option_key(s.options[i].long_form)),
        ),
{
    lemma_find_resolves(s, i, tokens[cur], 0);
}

/// Wherever the parse reaches a token that starts with `-` and is no declared
/// form, it reports that token as an unknown option, never as a positional.
pub proof fn lemma_unknown_option(s: SchemaModel, tokens: Seq<Seq<char>>, cur: int, pos: int)
    requires
        0 <= cur < tokens.len(),
        0 <= pos <= s.arguments.len(),
        looks_like_option(tokens[cur]),
        forall|j: int| 0 <= j < s.options.len() ==> !is_form_of(#[trigger] s.options[j], tokens[cur]),
    ensures
        parse_from(s, tokens, cur, pos) == Err::<Entries, ParseErrorModel>(
            ParseErrorModel::UnknownOption(tokens[cur]),
        ),
{
    lemma_find_none(s.options, tokens[cur], 0);
}

/// No tokens against a schema with a positional: the first positional is reported missing.
pub proof fn lemma_empty_input_missing_argument(s: SchemaModel)
    requires
        s.arguments.len() >= 1,
    ensures
        parse_model(s, Seq::empty()) == Err::<Entries, ParseErrorModel>(
            ParseErrorModel::MissingRequiredArgument(s.arguments[0].display_name),
        ),
{
}

} // verus!
