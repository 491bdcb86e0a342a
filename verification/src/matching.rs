//! The pass over the tokens: which template a token finds, which tokens it
//! takes as values, and what ends the pass.

use vstd::prelude::*;
use crate::errors::{HpError, HpErrorView};
use crate::parsed::{Occurrence, ParsedArgument, ParsedArguments, ParsedArgumentsView};
use crate::parser::{lookup, owner, Parser, ParserView};
use crate::template::{TemplateId, TemplateView};
use crate::text::{clone_strings, same_text};

verus! {

/// Whether `token` asks for help: it is `--help` or `-h`.
pub open spec fn is_help_token(token: Seq<char>) -> bool {
    token =~= seq!['-', '-', 'h', 'e', 'l', 'p'] || token =~= seq!['-', 'h']
}

/// Whether `token` is an argument of its own while `context` is active: it
/// answers in that context or at the top level.
pub open spec fn recognized(templates: Seq<TemplateView>, context: nat, token: Seq<char>) -> bool {
    lookup(templates, context, token) is Some || lookup(templates, 0, token) is Some
}

/// How many of `tokens`, from the place `from` on, an argument takes as its
/// values when it can take `limit` of them and `context` is active: all up to
/// the first that is an argument of its own, to the end of the tokens, or to
/// the limit.
pub open spec fn count_values(
    templates: Seq<TemplateView>,
    context: nat,
    tokens: Seq<Seq<char>>,
    from: int,
    limit: nat,
) -> nat
    decreases limit,
{
    if limit == 0 || from < 0 || from >= tokens.len() || recognized(
        templates,
        context,
        tokens[from],
    ) {
        0
    } else {
        1 + count_values(templates, context, tokens, from + 1, (limit - 1) as nat)
    }
}

/// What one token does to a pass.
pub enum Step {
    /// The token is an argument; this is its occurrence.
    Matched(Occurrence),
    /// The token is no argument and is passed over.
    Ignored,
    /// The token ends the pass with this error.
    Failed(HpErrorView),
}

/// What the token at the place `at` does while `context` is active.
///
/// The token is looked up in `context` and then at the top level. Where it
/// answers, it takes its values from the tokens behind it; with fewer than it
/// needs the pass fails. Where it does not answer but is an alias of a
/// subcommand, the pass fails and names the command. Any other token is
/// passed over.
pub open spec fn step(parser: ParserView, context: nat, tokens: Seq<Seq<char>>, at: int) -> Step {
    let token = tokens[at];
    let templates = parser.templates;
    let under = if lookup(templates, context, token) is Some {
        context
    } else {
        0
    };
    match lookup(templates, under, token) {
        Some(place) => {
            let template = templates[place];
            let count = count_values(templates, template.id, tokens, at + 1, template.arity);
            if !template.optional && count < template.arity {
                Step::Failed(HpErrorView::NumberOfValues(token, count, template.arity))
            } else {
                Step::Matched(
                    Occurrence {
                        context: under,
                        name: token,
                        id: template.id,
                        values: tokens.subrange(at + 1, at + 1 + count),
                    },
                )
            }
        },
        None => match owner(templates, token) {
            Some(place) => match templates[place].parent {
                Some(parent) => Step::Failed(
                    HpErrorView::OutOfContext(token, parser.name_of(parent)),
                ),
                None => Step::Ignored,
            },
            None => Step::Ignored,
        },
    }
}

/// A [`Pass`] as plain values.
pub struct PassView {
    /// The place of the next token.
    pub position: nat,
    /// The identifier of the template that matched last; 0 before the first
    /// match.
    pub context: nat,
    /// What was found so far.
    pub found: ParsedArgumentsView,
}

/// The pass before its first token.
pub open spec fn start() -> PassView {
    PassView { position: 0, context: 0, found: ParsedArgumentsView::nothing() }
}

/// What was found, with a request for help noted where `token` makes one.
pub open spec fn noted(found: ParsedArgumentsView, token: Seq<char>) -> ParsedArgumentsView {
    ParsedArgumentsView {
        help_requested: found.help_requested || is_help_token(token),
        ..found
    }
}

/// The pass after its next token, or the error that the token ends it with.
/// A pass that is behind the last token stays as it is.
pub open spec fn advance(parser: ParserView, pass: PassView, tokens: Seq<Seq<char>>) -> Result<
    PassView,
    HpErrorView,
> {
    if pass.position >= tokens.len() {
        Ok(pass)
    } else {
        let found = noted(pass.found, tokens[pass.position as int]);
        match step(parser, pass.context, tokens, pass.position as int) {
            Step::Failed(error) => Err(error),
            Step::Matched(occurrence) => Ok(
                PassView {
                    position: pass.position + 1,
                    context: occurrence.id,
                    found: found.with_occurrence(occurrence),
                },
            ),
            Step::Ignored => Ok(
                PassView { position: pass.position + 1, context: pass.context, found },
            ),
        }
    }
}

/// How the pass `pass` ends: with what it found when it is behind the last
/// token, or at a request for help that the parser ends a pass at; else as
/// the pass after the next token ends.
pub open spec fn finish(parser: ParserView, pass: PassView, tokens: Seq<Seq<char>>) -> Result<
    ParsedArgumentsView,
    HpErrorView,
>
    decreases tokens.len() - pass.position,
{
    if pass.position >= tokens.len() {
        Ok(pass.found)
    } else if parser.exit_on_help && is_help_token(tokens[pass.position as int]) {
        Ok(noted(pass.found, tokens[pass.position as int]))
    } else {
        match advance(parser, pass, tokens) {
            Err(error) => Err(error),
            Ok(next) => finish(parser, next, tokens),
        }
    }
}

/// How a pass over `tokens` ends.
pub open spec fn outcome(parser: ParserView, tokens: Seq<Seq<char>>) -> Result<
    ParsedArgumentsView,
    HpErrorView,
> {
    finish(parser, start(), tokens)
}

/// True when `result` is `expected`, value for value.
pub open spec fn is_outcome(
    result: Result<ParsedArguments, HpError>,
    expected: Result<ParsedArgumentsView, HpErrorView>,
) -> bool {
    match result {
        Ok(found) => expected == Ok::<ParsedArgumentsView, HpErrorView>(found@),
        Err(error) => expected == Err::<ParsedArgumentsView, HpErrorView>(error@),
    }
}

/// True when `result` is `expected`, value for value.
pub open spec fn is_advance(
    result: Result<Pass, HpError>,
    expected: Result<PassView, HpErrorView>,
) -> bool {
    match result {
        Ok(pass) => expected == Ok::<PassView, HpErrorView>(pass@),
        Err(error) => expected == Err::<PassView, HpErrorView>(error@),
    }
}

/// Whether `token` asks for help: it is `--help` or `-h`.
pub fn is_help_alias(token: &str) -> (help: bool)
    ensures
        help == is_help_token(token@),
{
    proof {
        reveal_strlit("--help");
        reveal_strlit("-h");
        assert("--help"@ =~= seq!['-', '-', 'h', 'e', 'l', 'p']);
        assert("-h"@ =~= seq!['-', 'h']);
    }
    same_text(token, "--help") || same_text(token, "-h")
}

/// A pass over the tokens, between two of them.
pub struct Pass {
    position: usize,
    context: TemplateId,
    found: ParsedArguments,
}

impl View for Pass {
    type V = PassView;

    closed spec fn view(&self) -> PassView {
        PassView {
            position: self.position as nat,
            context: self.context as nat,
            found: self.found@,
        }
    }
}

impl Pass {
    /// A pass before its first token.
    pub fn new() -> (pass: Self)
        ensures
            pass@ == start(),
    {
        Pass { position: 0, context: 0, found: ParsedArguments::new() }
    }

    /// The place of the next token.
    pub fn position(&self) -> (position: usize)
        ensures
            position as nat == self@.position,
    {
        self.position
    }

    /// The identifier of the template that matched last; 0 before the first
    /// match.
    pub fn context(&self) -> (context: TemplateId)
        ensures
            context as nat == self@.context,
    {
        self.context
    }

    /// Ends the pass where it stands, and hands out what it found.
    pub fn into_found(self) -> (found: ParsedArguments)
        ensures
            found@ == self@.found,
    {
        self.found
    }
}

impl Parser {
    /// Whether `token` is an argument of its own while `context` is active.
    fn recognizes(&self, context: TemplateId, token: &str) -> (known: bool)
        ensures
            known == recognized(self@.templates, context as nat, token@),
    {
        self.place_of(context, token).is_some() || self.place_of(0, token).is_some()
    }

    /// The values that an argument takes from `args`, from the place `from`
    /// on, when it can take `limit` of them and `context` is active.
    fn take_values(&self, context: TemplateId, args: &Vec<String>, from: usize, limit: usize) -> (values:
        Vec<String>)
        requires
            from <= args.len(),
        ensures
            values.deep_view() == args.deep_view().subrange(
                from as int,
                from + count_values(
                    self@.templates,
                    context as nat,
                    args.deep_view(),
                    from as int,
                    limit as nat,
                ),
            ),
            values.len() == count_values(
                self@.templates,
                context as nat,
                args.deep_view(),
                from as int,
                limit as nat,
            ),
    {
        let ghost tokens = args.deep_view();
        let ghost total = count_values(
            self@.templates,
            context as nat,
            tokens,
            from as int,
            limit as nat,
        );
        let mut values: Vec<String> = Vec::new();
        let mut taken: usize = 0;
        loop
            invariant
                tokens == args.deep_view(),
                from <= args.len(),
                taken <= limit,
                from + taken <= args.len(),
                values@.len() == taken,
                forall|j: int| 0 <= j < taken ==> values@[j]@ == tokens[from + j],
                total == taken + count_values(
                    self@.templates,
                    context as nat,
                    tokens,
                    from + taken,
                    (limit - taken) as nat,
                ),
            ensures
                taken == total,
                from + taken <= args.len(),
                values@.len() == taken,
                forall|j: int| 0 <= j < taken ==> values@[j]@ == tokens[from + j],
            decreases limit - taken,
        {
            if taken >= limit || from + taken >= args.len() {
                break;
            }
            let value = &args[from + taken];
            assert(value@ == tokens[from + taken]);
            if self.recognizes(context, value.as_str()) {
                break;
            }
            values.push(value.clone());
            taken = taken + 1;
        }
        assert(values.deep_view() =~= tokens.subrange(from as int, from + total));
        values
    }

    /// Moves `pass` over its next token of `args`.
    ///
    /// Where the token is an argument, the action of its template runs with
    /// the values found, and the pass holds the occurrence and has the
    /// template as its context. Where the token ends the pass, the error is
    /// returned and no action runs. A request for help is noted and does not
    /// end the pass here. The templates stay as they are.
    ///
    /// What an action does is its own affair: nothing is known of it here,
    /// but that it accepts every list of values. An action that comes from
    /// code that was not verified may panic all the same; its template is
    /// then left without an action.
    pub fn advance(&mut self, pass: Pass, args: &Vec<String>) -> (next: Result<Pass, HpError>)
        ensures
            final(self)@ == old(self)@,
            final(self)@.well_formed(),
            is_advance(next, advance(old(self)@, pass@, args.deep_view())),
    {
        proof {
            use_type_invariant(&*self);
            self.lemma_well_formed();
        }
        let ghost tokens = args.deep_view();
        let Pass { position, context, found } = pass;
        if position >= args.len() {
            return Ok(Pass { position, context, found });
        }
        let token = &args[position];
        assert(token@ == tokens[position as int]);
        let found = if is_help_alias(token.as_str()) {
            found.note_help()
        } else {
            found
        };
        let inside = self.place_of(context, token.as_str());
        let under: TemplateId = if inside.is_some() {
            context
        } else {
            0
        };
        let answer = if inside.is_some() {
            inside
        } else {
            self.place_of(0, token.as_str())
        };
        match answer {
            Some(place) => {
                let template = self.template_at(place);
                let id: TemplateId = template.id();
                let arity: usize = template.arity();
                let optional = template.is_optional();
                let values = self.take_values(id, args, position + 1, arity);
                if !optional && values.len() < arity {
                    return Err(HpError::NumberOfValues(token.clone(), values.len(), arity));
                }
                self.fire(place, clone_strings(&values));
                let found = found.record(ParsedArgument::new(under, token.clone(), id, values));
                Ok(Pass { position: position + 1, context: id, found })
            },
            None => {
                match self.place_of_owner(token) {
                    Some(place) => match self.template_at(place).parent() {
                        Some(parent) => {
                            return Err(
                                HpError::OutOfContext(token.clone(), self.name_of(parent)),
                            );
                        },
                        None => {},
                    },
                    None => {},
                }
                Ok(Pass { position: position + 1, context, found })
            },
        }
    }

    /// Matches `args`, from left to right, against the registered templates.
    ///
    /// Each token that is an argument takes the tokens behind it as its
    /// values, as many as it can take and up to the next token that is an
    /// argument of its own, and runs the action of its template. The result
    /// holds every occurrence; asked by name or identifier the last one
    /// answers. A token that asks for help is noted in the result, and ends
    /// the pass there if the parser is set to end at help. The first error
    /// ends the pass. The templates stay as they are.
    ///
    /// What an action does is its own affair: nothing is known of it here,
    /// but that it accepts every list of values. An action that comes from
    /// code that was not verified may panic all the same; its template is
    /// then left without an action.
    pub fn parse(&mut self, args: Vec<&str>) -> (result: Result<ParsedArguments, HpError>)
        ensures
            final(self)@ == old(self)@,
            final(self)@.well_formed(),
            is_outcome(result, outcome(old(self)@, args.deep_view())),
    {
        proof {
            use_type_invariant(&*self);
            self.lemma_well_formed();
        }
        let mut tokens: Vec<String> = Vec::new();
        let mut i: usize = 0;
        while i < args.len()
            invariant
                i <= args.len(),
                tokens@.len() == i,
                forall|j: int| 0 <= j < i ==> tokens@[j]@ == args@[j]@,
            decreases args.len() - i,
        {
            tokens.push(args[i].to_owned());
            i = i + 1;
        }
        assert(tokens.deep_view() =~= args.deep_view());
        let ghost parser = self@;
        let ghost texts = tokens.deep_view();
        let mut pass = Pass::new();
        while pass.position() < tokens.len()
            invariant
                self@ == parser,
                parser == old(self)@,
                texts == tokens.deep_view(),
                texts == args.deep_view(),
                outcome(parser, texts) == finish(parser, pass@, texts),
            decreases tokens.len() - pass@.position,
        {
            let at: usize = pass.position();
            assert(tokens[at as int]@ == texts[at as int]);
            if self.stops_at_help() && is_help_alias(tokens[at].as_str()) {
                let found = pass.into_found().note_help();
                return Ok(found);
            }
            match self.advance(pass, &tokens) {
                Ok(next) => {
                    pass = next;
                },
                Err(error) => {
                    return Err(error);
                },
            }
        }
        Ok(pass.into_found())
    }
}

} // verus!
