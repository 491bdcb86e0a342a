//! The parser: the templates it has registered, and how a token finds one.

use vstd::prelude::*;
use vstd::hash_map::StringHashMap;
use std::collections::HashMap;
use crate::template::{
    ready, run_action, takes_all, Callback, Template, TemplateId, TemplateView,
};

verus! {

broadcast use vstd::std_specs::hash::group_hash_axioms;

/// The place of the template that answers to `token` in `context`: of those
/// registered with that alias in that context, the one registered last.
pub open spec fn lookup(templates: Seq<TemplateView>, context: nat, token: Seq<char>) -> Option<int>
    decreases templates.len(),
{
    if templates.len() == 0 {
        None
    } else if templates.last().context() == context && templates.last().owns(token) {
        Some(templates.len() - 1)
    } else {
        lookup(templates.drop_last(), context, token)
    }
}

/// The place of the template, registered first, that has `token` as an alias
/// in whatever context.
pub open spec fn owner(templates: Seq<TemplateView>, token: Seq<char>) -> Option<int>
    decreases templates.len(),
{
    if templates.len() == 0 {
        None
    } else {
        match owner(templates.drop_last(), token) {
            Some(i) => Some(i),
            None => if templates.last().owns(token) {
                Some(templates.len() - 1)
            } else {
                None
            },
        }
    }
}

/// `lookup` gives the greatest place that answers, and nothing exactly when no
/// template answers.
pub proof fn lemma_lookup(templates: Seq<TemplateView>, context: nat, token: Seq<char>)
    ensures
        match lookup(templates, context, token) {
            Some(i) => {
                &&& 0 <= i < templates.len()
                &&& templates[i].context() == context
                &&& templates[i].owns(token)
                &&& forall|j: int|
                    i < j < templates.len() ==> !(templates[j].context() == context
                        && templates[j].owns(token))
            },
            None => forall|j: int|
                0 <= j < templates.len() ==> !(templates[j].context() == context
                    && templates[j].owns(token)),
        },
    decreases templates.len(),
{
    if templates.len() > 0 {
        let front = templates.drop_last();
        lemma_lookup(front, context, token);
        assert forall|j: int| 0 <= j < front.len() implies front[j] == templates[j] by {}
    }
}

/// `owner` gives the least place that has the alias, and nothing exactly when
/// no template has it.
pub proof fn lemma_owner(templates: Seq<TemplateView>, token: Seq<char>)
    ensures
        match owner(templates, token) {
            Some(i) => {
                &&& 0 <= i < templates.len()
                &&& templates[i].owns(token)
                &&& forall|j: int| 0 <= j < i ==> !templates[j].owns(token)
            },
            None => forall|j: int| 0 <= j < templates.len() ==> !templates[j].owns(token),
        },
    decreases templates.len(),
{
    if templates.len() > 0 {
        let front = templates.drop_last();
        lemma_owner(front, token);
        assert forall|j: int| 0 <= j < front.len() implies front[j] == templates[j] by {}
    }
}

/// Whether two lists of templates are the same but for the actions.
spec fn same_but_actions(a: Seq<TemplateView>, b: Seq<TemplateView>) -> bool {
    &&& a.len() == b.len()
    &&& forall|i: int|
        0 <= i < a.len() ==> (#[trigger] b[i]) == (TemplateView {
            has_action: b[i].has_action,
            ..a[i]
        })
}

/// What a token finds does not depend on the actions.
proof fn lemma_lookup_ignores_actions(a: Seq<TemplateView>, b: Seq<TemplateView>)
    requires
        same_but_actions(a, b),
    ensures
        forall|context: nat, token: Seq<char>| #[trigger]
            lookup(a, context, token) == lookup(b, context, token),
    decreases a.len(),
{
    if a.len() > 0 {
        let x = a.drop_last();
        let y = b.drop_last();
        assert forall|i: int| 0 <= i < x.len() implies (#[trigger] y[i]) == (TemplateView {
            has_action: y[i].has_action,
            ..x[i]
        }) by {
            assert(y[i] == b[i]);
        }
        lemma_lookup_ignores_actions(x, y);
        assert(b[b.len() - 1] == (TemplateView {
            has_action: b[b.len() - 1].has_action,
            ..a[a.len() - 1]
        }));
        assert forall|context: nat, token: Seq<char>| #[trigger]
            lookup(a, context, token) == lookup(b, context, token) by {
            assert(lookup(x, context, token) == lookup(y, context, token));
        }
    } else {
        assert forall|context: nat, token: Seq<char>| #[trigger]
            lookup(a, context, token) == lookup(b, context, token) by {}
    }
}

/// A [`Parser`] as plain values.
pub struct ParserView {
    /// The registered templates, in the order of their registration.
    pub templates: Seq<TemplateView>,
    /// Whether a pass ends at a token that asks for help.
    pub exit_on_help: bool,
    /// The author named in the help text.
    pub author: Seq<char>,
    /// The description of the program in the help text.
    pub description: Seq<char>,
    /// The usage line of the help text; where empty, one is made up.
    pub usage: Seq<char>,
    /// The name of the program in the help text.
    pub program_name: Seq<char>,
    /// A help text that replaces the generated one.
    pub help: Option<Seq<char>>,
}

impl ParserView {
    /// A parser without templates. It ends a pass at a request for help, and
    /// every text of its help is empty.
    pub open spec fn fresh() -> ParserView {
        ParserView {
            templates: Seq::empty(),
            exit_on_help: true,
            author: Seq::empty(),
            description: Seq::empty(),
            usage: Seq::empty(),
            program_name: Seq::empty(),
            help: None,
        }
    }

    /// The identifiers count the templates from 1, in the order of their
    /// registration.
    pub open spec fn well_formed(self) -> bool {
        forall|i: int| 0 <= i < self.templates.len() ==> (#[trigger] self.templates[i]).id == i + 1
    }

    /// The identifier that the next registration gives out.
    pub open spec fn next_id(self) -> nat {
        self.templates.len() + 1
    }

    /// The parser after it registered `template`, which gets the next
    /// identifier.
    pub open spec fn register(self, template: TemplateView) -> ParserView {
        ParserView {
            templates: self.templates.push(TemplateView { id: self.next_id(), ..template }),
            ..self
        }
    }

    /// The template with identifier `id`: as the identifiers count from 1,
    /// the one that was registered as the `id`-th.
    pub open spec fn by_id(self, id: nat) -> Option<TemplateView> {
        if 1 <= id <= self.templates.len() {
            Some(self.templates[id - 1])
        } else {
            None
        }
    }

    /// The first alias of the template with identifier `id`; empty where no
    /// template has that identifier, or the template has no alias.
    pub open spec fn name_of(self, id: nat) -> Seq<char> {
        match self.by_id(id) {
            Some(template) => if template.aliases.len() > 0 {
                template.aliases[0]
            } else {
                Seq::empty()
            },
            None => Seq::empty(),
        }
    }
}

/// True when `found`, if there is one, shows the template at `place`, and
/// there is none when `place` is none.
pub open spec fn shows(found: Option<&Template>, templates: Seq<TemplateView>, place: Option<int>)
    -> bool {
    match place {
        Some(i) => found is Some && found->0@ == templates[i],
        None => found is None,
    }
}

/// True when `found` is `place`.
pub open spec fn is_place(found: Option<usize>, place: Option<int>) -> bool {
    match place {
        Some(i) => found == Some(i as usize) && 0 <= i <= usize::MAX,
        None => found is None,
    }
}

/// The views of `templates`, one by one.
spec fn views(templates: Seq<Template>) -> Seq<TemplateView> {
    Seq::new(templates.len(), |i: int| templates[i]@)
}

/// The place that `index` holds for `token` in `context`.
spec fn slot(index: Map<usize, StringHashMap<usize>>, context: usize, token: Seq<char>) -> Option<
    int,
> {
    if index.contains_key(context) && index[context]@.contains_key(token) {
        Some(index[context]@[token] as int)
    } else {
        None
    }
}

/// The place that `names` holds for `token`.
spec fn entry(names: Map<Seq<char>, usize>, token: Seq<char>) -> Option<int> {
    if names.contains_key(token) {
        Some(names[token] as int)
    } else {
        None
    }
}

/// Whether `token` is one of the first `upto` of `aliases`.
spec fn among(aliases: Seq<Seq<char>>, upto: int, token: Seq<char>) -> bool {
    exists|j: int| 0 <= j < upto && aliases[j] == token
}

/// Registers templates and matches tokens against them.
pub struct Parser {
    templates: Vec<Template>,
    index: HashMap<usize, StringHashMap<usize>>,
    last_id: TemplateId,
    exit_on_help: bool,
    author: String,
    description: String,
    usage: String,
    program_name: String,
    help: Option<String>,
}

/// The text that `help` holds, if any.
pub open spec fn text_of(help: Option<String>) -> Option<Seq<char>> {
    match help {
        Some(text) => Some(text@),
        None => None,
    }
}

impl View for Parser {
    type V = ParserView;

    closed spec fn view(&self) -> ParserView {
        ParserView {
            templates: views(self.templates@),
            exit_on_help: self.exit_on_help,
            author: self.author@,
            description: self.description@,
            usage: self.usage@,
            program_name: self.program_name@,
            help: text_of(self.help),
        }
    }
}

impl Parser {
    #[verifier::type_invariant]
    pub(crate) closed spec fn inv(self) -> bool {
        &&& self.last_id == self.templates@.len()
        &&& forall|i: int|
            0 <= i < self.templates@.len() ==> (#[trigger] self.templates@[i])@.id == i + 1
        &&& forall|context: usize, token: Seq<char>| #[trigger]
            slot(self.index@, context, token) == lookup(
                views(self.templates@),
                context as nat,
                token,
            )
    }

    /// In a parser the identifiers count the templates from 1.
    pub(crate) proof fn lemma_well_formed(self)
        requires
            self.inv(),
        ensures
            self@.well_formed(),
    {
    }

    /// A parser without templates. It ends a pass at a request for help, and
    /// every text of its help is empty.
    pub fn new() -> (parser: Self)
        ensures
            parser@ == ParserView::fresh(),
            parser@.well_formed(),
    {
        let parser = Parser {
            templates: Vec::new(),
            index: HashMap::new(),
            last_id: 0,
            exit_on_help: true,
            author: String::new(),
            description: String::new(),
            usage: String::new(),
            program_name: String::new(),
            help: None,
        };
        assert(parser@.templates =~= Seq::empty());
        parser
    }

    /// Says whether a pass ends at a token that asks for help.
    pub fn exit_on_help(self, v: bool) -> (parser: Self)
        ensures
            parser@ == (ParserView { exit_on_help: v, ..self@ }),
            parser@.well_formed(),
    {
        proof {
            use_type_invariant(&self);
        }
        Parser {
            templates: self.templates,
            index: self.index,
            last_id: self.last_id,
            exit_on_help: v,
            author: self.author,
            description: self.description,
            usage: self.usage,
            program_name: self.program_name,
            help: self.help,
        }
    }

    /// Names the author of the program for the help text.
    pub fn with_author(self, v: &str) -> (parser: Self)
        ensures
            parser@ == (ParserView { author: v@, ..self@ }),
            parser@.well_formed(),
    {
        proof {
            use_type_invariant(&self);
        }
        Parser {
            templates: self.templates,
            index: self.index,
            last_id: self.last_id,
            exit_on_help: self.exit_on_help,
            author: v.to_owned(),
            description: self.description,
            usage: self.usage,
            program_name: self.program_name,
            help: self.help,
        }
    }

    /// Describes the program for the help text.
    pub fn with_description(self, v: &str) -> (parser: Self)
        ensures
            parser@ == (ParserView { description: v@, ..self@ }),
            parser@.well_formed(),
    {
        proof {
            use_type_invariant(&self);
        }
        Parser {
            templates: self.templates,
            index: self.index,
            last_id: self.last_id,
            exit_on_help: self.exit_on_help,
            author: self.author,
            description: v.to_owned(),
            usage: self.usage,
            program_name: self.program_name,
            help: self.help,
        }
    }

    /// Sets the usage line of the help text. While it is empty, the help text
    /// shows a usage line made from the name of the program.
    pub fn with_usage(self, v: &str) -> (parser: Self)
        ensures
            parser@ == (ParserView { usage: v@, ..self@ }),
            parser@.well_formed(),
    {
        proof {
            use_type_invariant(&self);
        }
        Parser {
            templates: self.templates,
            index: self.index,
            last_id: self.last_id,
            exit_on_help: self.exit_on_help,
            author: self.author,
            description: self.description,
            usage: v.to_owned(),
            program_name: self.program_name,
            help: self.help,
        }
    }

    /// Names the program for the help text.
    pub fn with_program_name(self, v: &str) -> (parser: Self)
        ensures
            parser@ == (ParserView { program_name: v@, ..self@ }),
            parser@.well_formed(),
    {
        proof {
            use_type_invariant(&self);
        }
        Parser {
            templates: self.templates,
            index: self.index,
            last_id: self.last_id,
            exit_on_help: self.exit_on_help,
            author: self.author,
            description: self.description,
            usage: self.usage,
            program_name: v.to_owned(),
            help: self.help,
        }
    }

    /// Replaces the generated help text by `v`.
    pub fn set_help(self, v: &str) -> (parser: Self)
        ensures
            parser@ == (ParserView { help: Some(v@), ..self@ }),
            parser@.well_formed(),
    {
        proof {
            use_type_invariant(&self);
        }
        Parser {
            templates: self.templates,
            index: self.index,
            last_id: self.last_id,
            exit_on_help: self.exit_on_help,
            author: self.author,
            description: self.description,
            usage: self.usage,
            program_name: self.program_name,
            help: Some(v.to_owned()),
        }
    }

    /// Registers `template` as it stands: stamps it with the next identifier
    /// and enters each of its aliases, in its context, into the index. An
    /// alias that the context holds already answers to the new template from
    /// now on.
    fn add_to_map(&mut self, template: Template) -> (id: TemplateId)
        ensures
            final(self)@ == old(self)@.register(template@),
            id as nat == old(self)@.next_id(),
            final(self)@.well_formed(),
    {
        let mut this = Parser::new();
        std::mem::swap(self, &mut this);
        proof {
            use_type_invariant(&this);
        }
        let Parser {
            templates,
            index,
            last_id,
            exit_on_help,
            author,
            description,
            usage,
            program_name,
            help,
        } = this;
        let mut templates = templates;
        let mut index = index;
        let ghost old_views = views(templates@);
        let ghost old_index = index@;
        let place: usize = templates.len();
        templates.push(template);
        assert(last_id + 1 == templates.len());
        let id: usize = last_id + 1;
        templates[place].set_id(id);
        let ghost added = TemplateView { id: id as nat, ..template@ };
        assert(views(templates@) =~= old_views.push(added));
        assert(views(templates@).drop_last() =~= old_views);
        let context: usize = templates[place].context();
        let mut inner = match index.remove(&context) {
            Some(inner) => inner,
            None => StringHashMap::new(),
        };
        let ghost old_inner = inner@;
        assert forall|token: Seq<char>| #[trigger]
            entry(old_inner, token) == slot(old_index, context, token) by {}
        let aliases = templates[place].aliases();
        let mut k: usize = 0;
        while k < aliases.len()
            invariant
                k <= aliases.len(),
                forall|token: Seq<char>| #[trigger]
                    entry(inner@, token) == (if among(aliases.deep_view(), k as int, token) {
                        Some(place as int)
                    } else {
                        entry(old_inner, token)
                    }),
            decreases aliases.len() - k,
        {
            let ghost before = inner@;
            let alias = aliases[k].clone();
            assert(alias@ == aliases.deep_view()[k as int]);
            inner.insert(alias, place);
            k = k + 1;
            assert forall|token: Seq<char>| #[trigger]
                entry(inner@, token) == (if among(aliases.deep_view(), k as int, token) {
                    Some(place as int)
                } else {
                    entry(old_inner, token)
                }) by {
                assert(entry(before, token) == (if among(
                    aliases.deep_view(),
                    k as int - 1,
                    token,
                ) {
                    Some(place as int)
                } else {
                    entry(old_inner, token)
                }));
                if among(aliases.deep_view(), k as int - 1, token) {
                    let j = choose|j: int|
                        0 <= j < k as int - 1 && aliases.deep_view()[j] == token;
                    assert(0 <= j < k as int && aliases.deep_view()[j] == token);
                }
            }
        }
        index.insert(context, inner);
        proof {
            assert forall|c: usize, token: Seq<char>| #[trigger]
                slot(index@, c, token) == lookup(views(templates@), c as nat, token) by {
                assert(slot(old_index, c, token) == lookup(old_views, c as nat, token));
                assert(added.owns(token) <==> among(
                    aliases.deep_view(),
                    aliases.len() as int,
                    token,
                ));
                if c == context {
                    assert(slot(index@, c, token) == entry(inner@, token));
                    assert(entry(old_inner, token) == slot(old_index, context, token));
                }
            }
        }
        *self = Parser {
            templates,
            index,
            last_id: id,
            exit_on_help,
            author,
            description,
            usage,
            program_name,
            help,
        };
        id
    }

    /// Registers a top-level argument with the one alias `matches`, which
    /// takes `num_values` values, all of them needed. Returns its identifier.
    pub fn add(&mut self, matches: &str, num_values: usize, help_message: &str) -> (id: TemplateId)
        ensures
            final(self)@ == old(self)@.register(
                TemplateView {
                    aliases: seq![matches@],
                    arity: num_values as nat,
                    optional: false,
                    help: help_message@,
                    parent: None,
                    id: 0,
                    has_action: false,
                },
            ),
            id as nat == old(self)@.next_id(),
            final(self)@.well_formed(),
    {
        let template = Template::new().matches(matches).number_of_values(num_values).with_help(
            help_message,
        );
        assert(template@.aliases =~= seq![matches@]);
        self.add_to_map(template)
    }

    /// Registers `template` and returns its identifier: the next one, counted
    /// from 1. Each alias is entered in the context of the template. Where
    /// that context has the alias already, the new template answers to it
    /// from now on; nothing is reported.
    pub fn add_template(&mut self, template: Template) -> (id: TemplateId)
        ensures
            final(self)@ == old(self)@.register(template@),
            id as nat == old(self)@.next_id(),
            final(self)@.well_formed(),
    {
        self.add_to_map(template)
    }

    /// Registers a subcommand of the command `subargument_of`, with the one
    /// alias `matches` and `num_values` values, all of them needed. Returns
    /// its identifier. Whether `subargument_of` is the identifier of a
    /// registered template is not asked.
    pub fn add_subcommand(
        &mut self,
        subargument_of: TemplateId,
        matches: &str,
        num_values: usize,
        help_message: &str,
    ) -> (id: TemplateId)
        ensures
            final(self)@ == old(self)@.register(
                TemplateView {
                    aliases: seq![matches@],
                    arity: num_values as nat,
                    optional: false,
                    help: help_message@,
                    parent: Some(subargument_of as nat),
                    id: 0,
                    has_action: false,
                },
            ),
            id as nat == old(self)@.next_id(),
            final(self)@.well_formed(),
    {
        let mut template = Template::new().matches(matches).number_of_values(num_values).with_help(
            help_message,
        );
        assert(template@.aliases =~= seq![matches@]);
        template.subarg(subargument_of);
        self.add_to_map(template)
    }

    /// Registers `template` as a subcommand of the command `subargument_of`
    /// and returns its identifier. Whether `subargument_of` is the identifier
    /// of a registered template is not asked.
    pub fn add_subcommand_template(&mut self, subargument_of: TemplateId, template: Template) -> (id:
        TemplateId)
        ensures
            final(self)@ == old(self)@.register(
                TemplateView { parent: Some(subargument_of as nat), ..template@ },
            ),
            id as nat == old(self)@.next_id(),
            final(self)@.well_formed(),
    {
        let mut template = template;
        template.subarg(subargument_of);
        self.add_to_map(template)
    }

    /// How many templates are registered.
    pub(crate) fn count(&self) -> (count: usize)
        ensures
            count as nat == self@.templates.len(),
            self@.well_formed(),
    {
        proof {
            use_type_invariant(self);
        }
        self.templates.len()
    }

    /// Whether a pass ends at a token that asks for help.
    pub fn stops_at_help(&self) -> (stops: bool)
        ensures
            stops == self@.exit_on_help,
            self@.well_formed(),
    {
        proof {
            use_type_invariant(self);
        }
        self.exit_on_help
    }

    /// The name of the program.
    pub(crate) fn program_name(&self) -> (text: &String)
        ensures
            text@ == self@.program_name,
    {
        &self.program_name
    }

    /// The description of the program.
    pub(crate) fn description(&self) -> (text: &String)
        ensures
            text@ == self@.description,
    {
        &self.description
    }

    /// The author of the program.
    pub(crate) fn author(&self) -> (text: &String)
        ensures
            text@ == self@.author,
    {
        &self.author
    }

    /// The usage line.
    pub(crate) fn usage(&self) -> (text: &String)
        ensures
            text@ == self@.usage,
    {
        &self.usage
    }

    /// The help text that replaces the generated one.
    pub(crate) fn custom_help(&self) -> (text: &Option<String>)
        ensures
            text_of(*text) == self@.help,
    {
        &self.help
    }

    /// The template at `place`.
    pub(crate) fn template_at(&self, place: usize) -> (template: &Template)
        requires
            place < self@.templates.len(),
        ensures
            template@ == self@.templates[place as int],
    {
        &self.templates[place]
    }

    /// The place of the template that answers to `token` in `context`.
    pub(crate) fn place_of(&self, context: TemplateId, token: &str) -> (place: Option<usize>)
        ensures
            is_place(place, lookup(self@.templates, context as nat, token@)),
            place is Some ==> place->0 < self@.templates.len(),
    {
        proof {
            use_type_invariant(self);
            lemma_lookup(self@.templates, context as nat, token@);
            assert(slot(self.index@, context, token@) == lookup(
                self@.templates,
                context as nat,
                token@,
            ));
        }
        match self.index.get(&context) {
            Some(names) => match names.get(token) {
                Some(place) => Some(*place),
                None => None,
            },
            None => None,
        }
    }

    /// The place of the first template that has `token` as an alias.
    pub(crate) fn place_of_owner(&self, token: &String) -> (place: Option<usize>)
        ensures
            is_place(place, owner(self@.templates, token@)),
            place is Some ==> place->0 < self@.templates.len(),
    {
        let mut i: usize = 0;
        while i < self.templates.len()
            invariant
                i <= self.templates.len(),
                forall|j: int| 0 <= j < i ==> !(#[trigger] self@.templates[j]).owns(token@),
            decreases self.templates.len() - i,
        {
            if self.templates[i].owns(token) {
                proof {
                    lemma_owner(self@.templates, token@);
                    assert(self@.templates[i as int].owns(token@));
                }
                return Some(i);
            }
            i = i + 1;
        }
        proof {
            lemma_owner(self@.templates, token@);
        }
        None
    }

    /// The first alias of the template with identifier `id`, or the empty
    /// string where there is none.
    pub(crate) fn name_of(&self, id: TemplateId) -> (name: String)
        ensures
            name@ == self@.name_of(id as nat),
    {
        if 1 <= id && id <= self.templates.len() {
            let aliases = self.templates[id - 1].aliases();
            if aliases.len() > 0 {
                assert(aliases.deep_view()[0] == aliases[0]@);
                return aliases[0].clone();
            }
        }
        String::new()
    }

    /// Takes the action out of the template at `place`.
    fn take_action(&mut self, place: usize) -> (action: Option<Box<dyn Callback>>)
        requires
            place < old(self)@.templates.len(),
        ensures
            final(self)@ == (ParserView {
                templates: old(self)@.templates.update(
                    place as int,
                    TemplateView { has_action: false, ..old(self)@.templates[place as int] },
                ),
                ..old(self)@
            }),
            action is Some == old(self)@.templates[place as int].has_action,
            ready(&action),
    {
        let mut this = Parser::new();
        std::mem::swap(self, &mut this);
        proof {
            use_type_invariant(&this);
        }
        let Parser {
            templates,
            index,
            last_id,
            exit_on_help,
            author,
            description,
            usage,
            program_name,
            help,
        } = this;
        let mut templates = templates;
        let ghost before = views(templates@);
        let action = templates[place].take_action();
        proof {
            let after = views(templates@);
            assert(after =~= before.update(
                place as int,
                TemplateView { has_action: false, ..before[place as int] },
            ));
            lemma_lookup_ignores_actions(before, after);
        }
        *self = Parser {
            templates,
            index,
            last_id,
            exit_on_help,
            author,
            description,
            usage,
            program_name,
            help,
        };
        action
    }

    /// Gives the template at `place` its action back.
    fn put_action(&mut self, place: usize, action: Box<dyn Callback>)
        requires
            place < old(self)@.templates.len(),
            takes_all(&action),
        ensures
            final(self)@ == (ParserView {
                templates: old(self)@.templates.update(
                    place as int,
                    TemplateView { has_action: true, ..old(self)@.templates[place as int] },
                ),
                ..old(self)@
            }),
    {
        let mut this = Parser::new();
        std::mem::swap(self, &mut this);
        proof {
            use_type_invariant(&this);
        }
        let Parser {
            templates,
            index,
            last_id,
            exit_on_help,
            author,
            description,
            usage,
            program_name,
            help,
        } = this;
        let mut templates = templates;
        let ghost before = views(templates@);
        templates[place].put_action(action);
        proof {
            let after = views(templates@);
            assert(after =~= before.update(
                place as int,
                TemplateView { has_action: true, ..before[place as int] },
            ));
            lemma_lookup_ignores_actions(before, after);
        }
        *self = Parser {
            templates,
            index,
            last_id,
            exit_on_help,
            author,
            description,
            usage,
            program_name,
            help,
        };
    }

    /// Runs the action of the template at `place` with `values`. While the
    /// action runs it is held here, outside the parser, which is whole at
    /// every moment.
    pub(crate) fn fire(&mut self, place: usize, values: Vec<String>)
        requires
            place < old(self)@.templates.len(),
        ensures
            final(self)@ == old(self)@,
    {
        match self.take_action(place) {
            Some(action) => {
                let mut action = action;
                run_action(&mut action, values);
                self.put_action(place, action);
                assert(self@.templates =~= old(self)@.templates);
            },
            None => {
                assert(self@.templates =~= old(self)@.templates);
            },
        }
    }

    /// The template that answers to `token` in `context`: the one registered
    /// last with that alias in that context.
    pub fn find(&self, context: TemplateId, token: &str) -> (found: Option<&Template>)
        ensures
            shows(found, self@.templates, lookup(self@.templates, context as nat, token@)),
    {
        match self.place_of(context, token) {
            Some(place) => Some(&self.templates[place]),
            None => None,
        }
    }

    /// The top-level template that answers to `token`.
    pub fn find_top_level(&self, token: &str) -> (found: Option<&Template>)
        ensures
            shows(found, self@.templates, lookup(self@.templates, 0, token@)),
    {
        self.find(0, token)
    }

    /// The template, registered first, that has `token` as an alias, whatever
    /// its context.
    pub fn find_anywhere(&self, token: &str) -> (found: Option<&Template>)
        ensures
            shows(found, self@.templates, owner(self@.templates, token@)),
    {
        let token = token.to_owned();
        match self.place_of_owner(&token) {
            Some(place) => Some(&self.templates[place]),
            None => None,
        }
    }
}

impl Default for Parser {
    /// A parser without templates that goes on at a request for help, and
    /// whose help has no text yet.
    fn default() -> (parser: Self)
        ensures
            parser@ == (ParserView { exit_on_help: false, ..ParserView::fresh() }),
    {
        Parser::new().exit_on_help(false)
    }
}

} // verus!
