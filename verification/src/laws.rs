//! What holds of every pass, proved from the definitions of the pass.

use vstd::prelude::*;
use crate::errors::{HpError, HpErrorView};
use crate::matching::{
    advance, count_values, finish, is_help_token, is_outcome, noted, outcome, recognized, start,
    step, PassView, Step,
};
use crate::parsed::{
    last_by_id, last_by_key, lemma_last_by_id, lemma_last_by_key, Occurrence, ParsedArguments,
    ParsedArgumentsView,
};
use crate::parser::{lemma_lookup, lemma_owner, lookup, ParserView};
use crate::template::TemplateView;

verus! {

/// The place of the template that `token` finds while `context` is active:
/// the one that answers in `context`, else the one that answers at the top
/// level.
pub open spec fn answer(templates: Seq<TemplateView>, context: nat, token: Seq<char>) -> Option<int> {
    if lookup(templates, context, token) is Some {
        lookup(templates, context, token)
    } else {
        lookup(templates, 0, token)
    }
}

/// A registration changes what a token finds only for the aliases of the new
/// template, in its context: there the new template answers from now on,
/// whether or not another one answered before. Everywhere else the answer
/// stays.
pub proof fn law_last_registration_answers(
    parser: ParserView,
    template: TemplateView,
    context: nat,
    token: Seq<char>,
)
    ensures
        lookup(parser.register(template).templates, context, token) == (if template.context()
            == context && template.owns(token) {
            Some(parser.templates.len() as int)
        } else {
            lookup(parser.templates, context, token)
        }),
{
    let after = parser.register(template).templates;
    assert(after.drop_last() =~= parser.templates);
}

/// A registration keeps the registered templates as they are and adds the new
/// one behind them, under the next identifier; the identifiers go on counting
/// from 1.
pub proof fn law_registration_appends(parser: ParserView, template: TemplateView)
    requires
        parser.well_formed(),
    ensures
        parser.register(template).well_formed(),
        parser.register(template).templates.len() == parser.templates.len() + 1,
        parser.register(template).templates.take(parser.templates.len() as int)
            == parser.templates,
        parser.register(template).by_id(parser.next_id()) == Some(
            TemplateView { id: parser.next_id(), ..template },
        ),
        forall|id: nat|
            id != parser.next_id() ==> parser.register(template).by_id(id) == parser.by_id(id),
{
    let after = parser.register(template).templates;
    assert(after.take(parser.templates.len() as int) =~= parser.templates);
}

/// Values are taken from left to right, up to the first token that is an
/// argument of its own, the end of the tokens, or the limit: none of the
/// tokens taken is an argument of its own, and the taking stops for one of
/// these three reasons.
pub proof fn law_values_stop_at_arguments(
    templates: Seq<TemplateView>,
    context: nat,
    tokens: Seq<Seq<char>>,
    from: int,
    limit: nat,
)
    requires
        0 <= from <= tokens.len(),
    ensures
        ({
            let count = count_values(templates, context, tokens, from, limit);
            &&& count <= limit
            &&& from + count <= tokens.len()
            &&& forall|j: int|
                from <= j < from + count ==> !recognized(templates, context, #[trigger] tokens[j])
            &&& (count == limit || from + count == tokens.len() || recognized(
                templates,
                context,
                tokens[from + count],
            ))
        }),
    decreases limit,
{
    if limit == 0 || from >= tokens.len() || recognized(templates, context, tokens[from]) {
    } else {
        law_values_stop_at_arguments(templates, context, tokens, from + 1, (limit - 1) as nat);
    }
}

/// The number of values taken is the only number with the properties that
/// `law_values_stop_at_arguments` states.
pub proof fn law_values_count_is_unique(
    templates: Seq<TemplateView>,
    context: nat,
    tokens: Seq<Seq<char>>,
    from: int,
    limit: nat,
    count: nat,
)
    requires
        0 <= from <= tokens.len(),
        count <= limit,
        from + count <= tokens.len(),
        forall|j: int|
            from <= j < from + count ==> !recognized(templates, context, #[trigger] tokens[j]),
        count == limit || from + count == tokens.len() || recognized(
            templates,
            context,
            tokens[from + count],
        ),
    ensures
        count_values(templates, context, tokens, from, limit) == count,
    decreases limit,
{
    if limit == 0 || from >= tokens.len() || recognized(templates, context, tokens[from]) {
        if count > 0 {
            assert(!recognized(templates, context, tokens[from]));
        }
    } else {
        law_values_count_is_unique(
            templates,
            context,
            tokens,
            from + 1,
            (limit - 1) as nat,
            (count - 1) as nat,
        );
    }
}

/// An argument that needs all of its values, and is followed by fewer tokens
/// that can be values than it needs, ends the pass with an error that gives
/// the exact number of values found and the number needed.
///
/// `count` tokens behind the argument are no arguments of their own, and
/// behind them the tokens end or an argument follows.
pub proof fn law_shortfall_is_reported(
    parser: ParserView,
    pass: PassView,
    tokens: Seq<Seq<char>>,
    place: int,
    count: nat,
)
    requires
        pass.position < tokens.len(),
        answer(parser.templates, pass.context, tokens[pass.position as int]) == Some(place),
        !parser.templates[place].optional,
        count < parser.templates[place].arity,
        pass.position + 1 + count <= tokens.len(),
        forall|j: int|
            pass.position < j <= pass.position + count ==> !recognized(
                parser.templates,
                parser.templates[place].id,
                #[trigger] tokens[j],
            ),
        pass.position + 1 + count == tokens.len() || recognized(
            parser.templates,
            parser.templates[place].id,
            tokens[pass.position + 1 + count as int],
        ),
    ensures
        step(parser, pass.context, tokens, pass.position as int) == Step::Failed(
            HpErrorView::NumberOfValues(
                tokens[pass.position as int],
                count,
                parser.templates[place].arity,
            ),
        ),
        advance(parser, pass, tokens) == Err::<PassView, HpErrorView>(
            HpErrorView::NumberOfValues(
                tokens[pass.position as int],
                count,
                parser.templates[place].arity,
            ),
        ),
        !(parser.exit_on_help && is_help_token(tokens[pass.position as int])) ==> finish(
            parser,
            pass,
            tokens,
        ) == Err::<ParsedArgumentsView, HpErrorView>(
            HpErrorView::NumberOfValues(
                tokens[pass.position as int],
                count,
                parser.templates[place].arity,
            ),
        ),
{
    let template = parser.templates[place];
    law_values_count_is_unique(
        parser.templates,
        template.id,
        tokens,
        pass.position + 1 as int,
        template.arity,
        count,
    );
}

/// What the occurrence of an argument holds. The token found the template at
/// `place`: the occurrence has the identifier of that template, the token as
/// its name, and as its context the one in which the template answered. Its
/// values are the tokens directly behind the argument, no more than the
/// template takes and all of them where it needs them all, and none of them
/// is an argument of its own: a value never hides an argument.
pub proof fn law_occurrence_holds_what_was_written(
    parser: ParserView,
    pass: PassView,
    tokens: Seq<Seq<char>>,
    place: int,
)
    requires
        pass.position < tokens.len(),
        answer(parser.templates, pass.context, tokens[pass.position as int]) == Some(place),
        step(parser, pass.context, tokens, pass.position as int) is Matched,
    ensures
        ({
            let at = pass.position as int;
            let found = step(parser, pass.context, tokens, at)->Matched_0;
            let template = parser.templates[place];
            &&& 0 <= place < parser.templates.len()
            &&& found.id == template.id
            &&& found.name == tokens[at]
            &&& template.owns(found.name)
            &&& found.context == template.context()
            &&& found.context == pass.context || found.context == 0
            &&& found.values.len() <= template.arity
            &&& template.optional || found.values.len() == template.arity
            &&& at + 1 + found.values.len() <= tokens.len()
            &&& found.values == tokens.subrange(at + 1, at + 1 + found.values.len())
            &&& forall|j: int|
                0 <= j < found.values.len() ==> !recognized(
                    parser.templates,
                    found.id,
                    #[trigger] found.values[j],
                )
        }),
{
    let token = tokens[pass.position as int];
    let template = parser.templates[place];
    lemma_lookup(parser.templates, pass.context, token);
    lemma_lookup(parser.templates, 0, token);
    law_values_stop_at_arguments(
        parser.templates,
        template.id,
        tokens,
        pass.position as int + 1,
        template.arity,
    );
    let found = step(parser, pass.context, tokens, pass.position as int)->Matched_0;
    assert forall|j: int| 0 <= j < found.values.len() implies !recognized(
        parser.templates,
        found.id,
        #[trigger] found.values[j],
    ) by {
        assert(found.values[j] == tokens[pass.position + 1 + j]);
    }
}

/// A token that no template has as an alias is passed over: the pass goes to
/// the next token and nothing else changes, but for a request for help that
/// is noted.
pub proof fn law_unknown_token_is_passed_over(
    parser: ParserView,
    pass: PassView,
    tokens: Seq<Seq<char>>,
)
    requires
        pass.position < tokens.len(),
        forall|j: int|
            0 <= j < parser.templates.len() ==> !(#[trigger] parser.templates[j]).owns(
                tokens[pass.position as int],
            ),
    ensures
        step(parser, pass.context, tokens, pass.position as int) == Step::Ignored,
        advance(parser, pass, tokens) == Ok::<PassView, HpErrorView>(
            PassView {
                position: pass.position + 1,
                context: pass.context,
                found: noted(pass.found, tokens[pass.position as int]),
            },
        ),
{
    let token = tokens[pass.position as int];
    lemma_lookup(parser.templates, pass.context, token);
    lemma_lookup(parser.templates, 0, token);
    lemma_owner(parser.templates, token);
}

/// A subcommand that is written while neither its command is active nor the
/// token answers at the top level ends the pass with an error that names the
/// token and the first alias of the command.
///
/// `command` is the identifier of the one command that the token is a
/// subcommand of.
pub proof fn law_subcommand_needs_its_command(
    parser: ParserView,
    pass: PassView,
    tokens: Seq<Seq<char>>,
    command: nat,
)
    requires
        pass.position < tokens.len(),
        !recognized(parser.templates, pass.context, tokens[pass.position as int]),
        exists|j: int|
            0 <= j < parser.templates.len() && (#[trigger] parser.templates[j]).owns(
                tokens[pass.position as int],
            ),
        forall|j: int|
            0 <= j < parser.templates.len() && (#[trigger] parser.templates[j]).owns(
                tokens[pass.position as int],
            ) ==> parser.templates[j].parent == Some(command),
    ensures
        step(parser, pass.context, tokens, pass.position as int) == Step::Failed(
            HpErrorView::OutOfContext(tokens[pass.position as int], parser.name_of(command)),
        ),
        advance(parser, pass, tokens) == Err::<PassView, HpErrorView>(
            HpErrorView::OutOfContext(tokens[pass.position as int], parser.name_of(command)),
        ),
        !(parser.exit_on_help && is_help_token(tokens[pass.position as int])) ==> finish(
            parser,
            pass,
            tokens,
        ) == Err::<ParsedArgumentsView, HpErrorView>(
            HpErrorView::OutOfContext(tokens[pass.position as int], parser.name_of(command)),
        ),
{
    lemma_owner(parser.templates, tokens[pass.position as int]);
}

/// The command that an out-of-context error names is the registered template
/// with that identifier, by its first alias.
pub proof fn law_command_is_named_by_first_alias(parser: ParserView, command: nat, place: int)
    requires
        parser.well_formed(),
        0 <= place < parser.templates.len(),
        parser.templates[place].id == command,
        parser.templates[place].aliases.len() > 0,
    ensures
        parser.name_of(command) == parser.templates[place].aliases[0],
{
}

/// Whether each occurrence that was found in the context of a command comes
/// directly behind an occurrence of that command.
pub open spec fn follows_its_command(occurrences: Seq<Occurrence>) -> bool {
    forall|k: int|
        0 <= k < occurrences.len() && (#[trigger] occurrences[k]).context != 0 ==> k > 0
            && occurrences[k - 1].id == occurrences[k].context
}

/// Whether the context of `pass` is that of its last occurrence, or the top
/// level where it has none.
pub open spec fn context_is_last_match(pass: PassView) -> bool {
    if pass.found.occurrences.len() == 0 {
        pass.context == 0
    } else {
        pass.context == pass.found.occurrences.last().id
    }
}

/// One token keeps `follows_its_command` and `context_is_last_match`.
proof fn lemma_advance_keeps_order(parser: ParserView, pass: PassView, tokens: Seq<Seq<char>>)
    requires
        follows_its_command(pass.found.occurrences),
        context_is_last_match(pass),
    ensures
        match advance(parser, pass, tokens) {
            Ok(next) => follows_its_command(next.found.occurrences) && context_is_last_match(
                next,
            ),
            Err(_) => true,
        },
{
    if pass.position < tokens.len() {
        match step(parser, pass.context, tokens, pass.position as int) {
            Step::Matched(occurrence) => {
                let before = pass.found.occurrences;
                let after = before.push(occurrence);
                assert forall|k: int|
                    0 <= k < after.len() && (#[trigger] after[k]).context != 0 implies k > 0
                    && after[k - 1].id == after[k].context by {
                    if k < before.len() {
                        assert(after[k] == before[k]);
                    }
                }
            },
            _ => {},
        }
    }
}

/// From a pass on that is in order, the pass ends in order.
proof fn lemma_finish_keeps_order(parser: ParserView, pass: PassView, tokens: Seq<Seq<char>>)
    requires
        follows_its_command(pass.found.occurrences),
        context_is_last_match(pass),
    ensures
        match finish(parser, pass, tokens) {
            Ok(found) => follows_its_command(found.occurrences),
            Err(_) => true,
        },
    decreases tokens.len() - pass.position,
{
    if pass.position >= tokens.len() {
    } else if parser.exit_on_help && is_help_token(tokens[pass.position as int]) {
    } else {
        lemma_advance_keeps_order(parser, pass, tokens);
        match advance(parser, pass, tokens) {
            Ok(next) => {
                lemma_finish_keeps_order(parser, next, tokens);
            },
            Err(_) => {},
        }
    }
}

/// A subcommand is found only directly behind its command: in what a pass
/// found, each occurrence in the context of a command comes directly behind
/// an occurrence of the template with that identifier.
pub proof fn law_subcommand_follows_its_command(parser: ParserView, tokens: Seq<Seq<char>>)
    ensures
        match outcome(parser, tokens) {
            Ok(found) => follows_its_command(found.occurrences),
            Err(_) => true,
        },
{
    lemma_finish_keeps_order(parser, start(), tokens);
}

/// Of two occurrences that were found under the same name in the same
/// context, the earlier one does not answer: asked by that name, the result
/// gives an occurrence that is not before the later one, and both stay in the
/// list of occurrences.
pub proof fn law_later_occurrence_answers_by_key(
    found: ParsedArgumentsView,
    earlier: int,
    later: int,
)
    requires
        0 <= earlier < later < found.occurrences.len(),
        found.occurrences[earlier].context == found.occurrences[later].context,
        found.occurrences[earlier].name == found.occurrences[later].name,
    ensures
        ({
            let key = found.occurrences[later];
            &&& last_by_key(found.occurrences, key.context, key.name) is Some
            &&& last_by_key(found.occurrences, key.context, key.name)->0 >= later
            &&& found.by_key(key.context, key.name) is Some
        }),
{
    let key = found.occurrences[later];
    lemma_last_by_key(found.occurrences, key.context, key.name);
}

/// Of two occurrences of the same template, the earlier one does not answer:
/// asked by the identifier, the result gives an occurrence that is not before
/// the later one.
pub proof fn law_later_occurrence_answers_by_id(
    found: ParsedArgumentsView,
    earlier: int,
    later: int,
)
    requires
        0 <= earlier < later < found.occurrences.len(),
        found.occurrences[earlier].id == found.occurrences[later].id,
    ensures
        ({
            let id = found.occurrences[later].id;
            &&& last_by_id(found.occurrences, id) is Some
            &&& last_by_id(found.occurrences, id)->0 >= later
            &&& found.by_id(id) is Some
        }),
{
    lemma_last_by_id(found.occurrences, found.occurrences[later].id);
}

/// Each token that is an argument adds one occurrence at the end of the list,
/// and no token takes one away or changes one: the occurrences before a token
/// are the first of the occurrences behind it.
pub proof fn law_occurrences_are_kept_in_order(
    parser: ParserView,
    pass: PassView,
    tokens: Seq<Seq<char>>,
)
    ensures
        match advance(parser, pass, tokens) {
            Ok(next) => {
                let before = pass.found.occurrences;
                let after = next.found.occurrences;
                &&& before.len() <= after.len() <= before.len() + 1
                &&& after.take(before.len() as int) == before
                &&& (after.len() == before.len() + 1 <==> pass.position < tokens.len() && step(
                    parser,
                    pass.context,
                    tokens,
                    pass.position as int,
                ) is Matched)
            },
            Err(_) => true,
        },
{
    match advance(parser, pass, tokens) {
        Ok(next) => {
            assert(next.found.occurrences.take(pass.found.occurrences.len() as int)
                =~= pass.found.occurrences);
        },
        Err(_) => {},
    }
}

/// Two passes of one parser over the same tokens end the same way: with
/// results that are equal value for value, or with the same error.
pub proof fn law_same_tokens_same_outcome(
    parser: ParserView,
    tokens: Seq<Seq<char>>,
    first: Result<ParsedArguments, HpError>,
    second: Result<ParsedArguments, HpError>,
)
    requires
        is_outcome(first, outcome(parser, tokens)),
        is_outcome(second, outcome(parser, tokens)),
    ensures
        first is Ok <==> second is Ok,
        first is Ok ==> first->Ok_0@ == second->Ok_0@,
        first is Err ==> first->Err_0@ == second->Err_0@,
{
}

} // verus!
