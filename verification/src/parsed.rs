//! What a pass over the tokens found.

use vstd::prelude::*;
use vstd::hash_map::StringHashMap;
use std::collections::HashMap;
use crate::template::TemplateId;

verus! {

broadcast use vstd::std_specs::hash::group_hash_axioms;

/// One place among the tokens where an argument was found: a
/// [`ParsedArgument`] as plain values.
pub struct Occurrence {
    /// The context in which the token was recognized: the identifier of the
    /// command that was active, or 0 where the token is a top-level argument.
    pub context: nat,
    /// The token as written.
    pub name: Seq<char>,
    /// The identifier of the template that the token matched.
    pub id: nat,
    /// The values that the argument took, in the order of the tokens.
    pub values: Seq<Seq<char>>,
}

/// The place of the last of `occurrences` that was found as `name` in
/// `context`.
pub open spec fn last_by_key(occurrences: Seq<Occurrence>, context: nat, name: Seq<char>) -> Option<
    int,
>
    decreases occurrences.len(),
{
    if occurrences.len() == 0 {
        None
    } else if occurrences.last().context == context && occurrences.last().name == name {
        Some(occurrences.len() - 1)
    } else {
        last_by_key(occurrences.drop_last(), context, name)
    }
}

/// The place of the last of `occurrences` that matched the template `id`.
pub open spec fn last_by_id(occurrences: Seq<Occurrence>, id: nat) -> Option<int>
    decreases occurrences.len(),
{
    if occurrences.len() == 0 {
        None
    } else if occurrences.last().id == id {
        Some(occurrences.len() - 1)
    } else {
        last_by_id(occurrences.drop_last(), id)
    }
}

/// `last_by_key` gives the greatest place with that key, and nothing exactly
/// when no occurrence has the key.
pub proof fn lemma_last_by_key(occurrences: Seq<Occurrence>, context: nat, name: Seq<char>)
    ensures
        match last_by_key(occurrences, context, name) {
            Some(i) => {
                &&& 0 <= i < occurrences.len()
                &&& occurrences[i].context == context
                &&& occurrences[i].name == name
                &&& forall|j: int|
                    i < j < occurrences.len() ==> !(occurrences[j].context == context
                        && occurrences[j].name == name)
            },
            None => forall|j: int|
                0 <= j < occurrences.len() ==> !(occurrences[j].context == context
                    && occurrences[j].name == name),
        },
    decreases occurrences.len(),
{
    if occurrences.len() > 0 {
        let front = occurrences.drop_last();
        lemma_last_by_key(front, context, name);
        assert forall|j: int| 0 <= j < front.len() implies front[j] == occurrences[j] by {}
    }
}

/// `last_by_id` gives the greatest place with that identifier, and nothing
/// exactly when no occurrence has it.
pub proof fn lemma_last_by_id(occurrences: Seq<Occurrence>, id: nat)
    ensures
        match last_by_id(occurrences, id) {
            Some(i) => {
                &&& 0 <= i < occurrences.len()
                &&& occurrences[i].id == id
                &&& forall|j: int| i < j < occurrences.len() ==> occurrences[j].id != id
            },
            None => forall|j: int| 0 <= j < occurrences.len() ==> occurrences[j].id != id,
        },
    decreases occurrences.len(),
{
    if occurrences.len() > 0 {
        let front = occurrences.drop_last();
        lemma_last_by_id(front, id);
        assert forall|j: int| 0 <= j < front.len() implies front[j] == occurrences[j] by {}
    }
}

/// A [`ParsedArguments`] as plain values.
pub struct ParsedArgumentsView {
    /// Every occurrence of an argument, in the order of the tokens.
    pub occurrences: Seq<Occurrence>,
    /// Whether one of the tokens asked for help.
    pub help_requested: bool,
}

impl ParsedArgumentsView {
    /// The result of a pass that found nothing.
    pub open spec fn nothing() -> ParsedArgumentsView {
        ParsedArgumentsView { occurrences: Seq::empty(), help_requested: false }
    }

    /// The occurrence that was last found as `name` in `context`.
    pub open spec fn by_key(self, context: nat, name: Seq<char>) -> Option<Occurrence> {
        match last_by_key(self.occurrences, context, name) {
            Some(i) => Some(self.occurrences[i]),
            None => None,
        }
    }

    /// The occurrence that last matched the template `id`.
    pub open spec fn by_id(self, id: nat) -> Option<Occurrence> {
        match last_by_id(self.occurrences, id) {
            Some(i) => Some(self.occurrences[i]),
            None => None,
        }
    }

    /// The result with one more occurrence at its end.
    pub open spec fn with_occurrence(self, occurrence: Occurrence) -> ParsedArgumentsView {
        ParsedArgumentsView { occurrences: self.occurrences.push(occurrence), ..self }
    }
}

/// An argument that was found among the tokens, with its values.
#[derive(Clone, Debug)]
pub struct ParsedArgument {
    context: TemplateId,
    name: String,
    id: TemplateId,
    values: Vec<String>,
}

impl View for ParsedArgument {
    type V = Occurrence;

    closed spec fn view(&self) -> Occurrence {
        Occurrence {
            context: self.context as nat,
            name: self.name@,
            id: self.id as nat,
            values: self.values.deep_view(),
        }
    }
}

impl ParsedArgument {
    /// The argument that was found as `name` in `context`, matched the
    /// template `id` and took `values`.
    pub(crate) fn new(context: TemplateId, name: String, id: TemplateId, values: Vec<String>) -> (argument:
        Self)
        ensures
            argument@ == (Occurrence {
                context: context as nat,
                name: name@,
                id: id as nat,
                values: values.deep_view(),
            }),
    {
        Self { context, name, id, values }
    }

    /// The values that the argument took.
    pub fn values(&self) -> (values: &Vec<String>)
        ensures
            values.deep_view() == self@.values,
    {
        &self.values
    }

    /// The identifier of the template that the argument matched.
    pub fn id(&self) -> (id: TemplateId)
        ensures
            id as nat == self@.id,
    {
        self.id
    }

    /// How many values the argument took.
    pub fn number_of_values(&self) -> (count: usize)
        ensures
            count as nat == self@.values.len(),
    {
        self.values.len()
    }

    /// The argument as it was written among the tokens.
    pub fn name(&self) -> (name: &String)
        ensures
            name@ == self@.name,
    {
        &self.name
    }

    /// The context in which the argument was recognized: the identifier of
    /// the command that was active, or 0 for a top-level argument.
    pub fn context(&self) -> (context: TemplateId)
        ensures
            context as nat == self@.context,
    {
        self.context
    }
}

/// True when `argument`, if there is one, is `occurrence`, and there is none
/// when `occurrence` is none.
pub open spec fn shows(argument: Option<&ParsedArgument>, occurrence: Option<Occurrence>) -> bool {
    match occurrence {
        Some(occurrence) => argument is Some && argument->0@ == occurrence,
        None => argument is None,
    }
}

/// The place that the index `by_name` holds for `name` in `context`.
spec fn name_slot(by_name: Map<usize, StringHashMap<usize>>, context: usize, name: Seq<char>)
    -> Option<int> {
    if by_name.contains_key(context) && by_name[context]@.contains_key(name) {
        Some(by_name[context]@[name] as int)
    } else {
        None
    }
}

/// The place that the index `by_id` holds for `id`.
spec fn id_slot(by_id: Map<usize, usize>, id: usize) -> Option<int> {
    if by_id.contains_key(id) {
        Some(by_id[id] as int)
    } else {
        None
    }
}

/// The occurrences that `found` stands for.
spec fn occurrences_of(found: Seq<ParsedArgument>) -> Seq<Occurrence> {
    Seq::new(found.len(), |i: int| found[i]@)
}

/// The arguments that a pass found, to be asked by name, by identifier, or by
/// command and name. Of several occurrences of one argument the last answers.
pub struct ParsedArguments {
    found: Vec<ParsedArgument>,
    by_name: HashMap<usize, StringHashMap<usize>>,
    by_id: HashMap<usize, usize>,
    help_requested: bool,
}

impl View for ParsedArguments {
    type V = ParsedArgumentsView;

    closed spec fn view(&self) -> ParsedArgumentsView {
        ParsedArgumentsView {
            occurrences: occurrences_of(self.found@),
            help_requested: self.help_requested,
        }
    }
}

impl ParsedArguments {
    #[verifier::type_invariant]
    spec fn inv(self) -> bool {
        &&& forall|context: usize, name: Seq<char>| #[trigger]
            name_slot(self.by_name@, context, name) == last_by_key(
                self@.occurrences,
                context as nat,
                name,
            )
        &&& forall|id: usize| #[trigger]
            id_slot(self.by_id@, id) == last_by_id(self@.occurrences, id as nat)
    }

    /// The result of a pass that found nothing.
    pub(crate) fn new() -> (results: Self)
        ensures
            results@ == ParsedArgumentsView::nothing(),
    {
        let results = ParsedArguments {
            found: Vec::new(),
            by_name: HashMap::new(),
            by_id: HashMap::new(),
            help_requested: false,
        };
        assert(results@.occurrences =~= Seq::empty());
        results
    }

    /// Notes that a token asked for help.
    pub(crate) fn note_help(self) -> (results: Self)
        ensures
            results@ == (ParsedArgumentsView { help_requested: true, ..self@ }),
    {
        proof {
            use_type_invariant(&self);
        }
        ParsedArguments {
            found: self.found,
            by_name: self.by_name,
            by_id: self.by_id,
            help_requested: true,
        }
    }

    /// Adds `argument` as the last occurrence.
    pub(crate) fn record(self, argument: ParsedArgument) -> (results: Self)
        ensures
            results@ == self@.with_occurrence(argument@),
    {
        proof {
            use_type_invariant(&self);
        }
        let ghost before = self@.occurrences;
        let ghost added = argument@;
        let ParsedArguments { found, by_name, by_id, help_requested } = self;
        let mut found = found;
        let mut by_name = by_name;
        let mut by_id = by_id;
        let ghost old_by_name = by_name@;
        let ghost old_by_id = by_id@;
        let place: usize = found.len();
        let context: usize = argument.context;
        let id: usize = argument.id;
        let name = argument.name.clone();
        found.push(argument);
        let mut names = match by_name.remove(&context) {
            Some(names) => names,
            None => StringHashMap::new(),
        };
        names.insert(name, place);
        by_name.insert(context, names);
        by_id.insert(id, place);
        proof {
            let after = occurrences_of(found@);
            assert(after =~= before.push(added));
            assert(after.drop_last() =~= before);
            assert forall|c: usize, n: Seq<char>| #[trigger]
                name_slot(by_name@, c, n) == last_by_key(after, c as nat, n) by {
                assert(name_slot(old_by_name, c, n) == last_by_key(before, c as nat, n));
            }
            assert forall|i: usize| #[trigger]
                id_slot(by_id@, i) == last_by_id(after, i as nat) by {
                assert(id_slot(old_by_id, i) == last_by_id(before, i as nat));
            }
        }
        ParsedArguments { found, by_name, by_id, help_requested }
    }

    /// The argument that was last found as `key` in `context`.
    fn lookup(&self, context: usize, key: &str) -> (argument: Option<&ParsedArgument>)
        ensures
            shows(argument, self@.by_key(context as nat, key@)),
    {
        proof {
            use_type_invariant(self);
            lemma_last_by_key(self@.occurrences, context as nat, key@);
            assert(name_slot(self.by_name@, context, key@) == last_by_key(
                self@.occurrences,
                context as nat,
                key@,
            ));
        }
        match self.by_name.get(&context) {
            Some(names) => match names.get(key) {
                Some(place) => Some(&self.found[*place]),
                None => None,
            },
            None => None,
        }
    }

    /// The top-level argument that was last found as `key`.
    pub fn get(&self, key: &str) -> (argument: Option<&ParsedArgument>)
        ensures
            shows(argument, self@.by_key(0, key@)),
    {
        self.lookup(0, key)
    }

    /// The argument that last matched the template `id`.
    pub fn get_with_id(&self, id: TemplateId) -> (argument: Option<&ParsedArgument>)
        ensures
            shows(argument, self@.by_id(id as nat)),
    {
        proof {
            use_type_invariant(self);
            lemma_last_by_id(self@.occurrences, id as nat);
            assert(id_slot(self.by_id@, id) == last_by_id(self@.occurrences, id as nat));
        }
        match self.by_id.get(&id) {
            Some(place) => Some(&self.found[*place]),
            None => None,
        }
    }

    /// Whether a top-level argument was found as `key`.
    pub fn has(&self, key: &str) -> (present: bool)
        ensures
            present == (self@.by_key(0, key@) is Some),
    {
        self.get(key).is_some()
    }

    /// Whether an argument matched the template `id`.
    pub fn has_with_id(&self, id: TemplateId) -> (present: bool)
        ensures
            present == (self@.by_id(id as nat) is Some),
    {
        self.get_with_id(id).is_some()
    }

    /// The subcommand of the command `context` that was last found as `key`.
    pub fn get_with_context(&self, context: TemplateId, key: &str) -> (argument: Option<
        &ParsedArgument,
    >)
        ensures
            shows(argument, self@.by_key(context as nat, key@)),
    {
        self.lookup(context, key)
    }

    /// Whether a subcommand of the command `context` was found as `key`.
    pub fn has_with_context(&self, context: TemplateId, key: &str) -> (present: bool)
        ensures
            present == (self@.by_key(context as nat, key@) is Some),
    {
        self.get_with_context(context, key).is_some()
    }

    /// Whether a token asked for help.
    pub fn help_requested(&self) -> (requested: bool)
        ensures
            requested == self@.help_requested,
    {
        self.help_requested
    }

    /// Every occurrence of an argument, first to last.
    pub fn occurrences(&self) -> (all: &Vec<ParsedArgument>)
        ensures
            all@.len() == self@.occurrences.len(),
            forall|i: int| 0 <= i < all@.len() ==> (#[trigger] all@[i])@ == self@.occurrences[i],
    {
        &self.found
    }
}

} // verus!
