//! Templates: what an argument looks like before it is registered.

use vstd::prelude::*;

verus! {

/// The identifier that a parser gives to a template when it registers it.
/// Identifiers start at 1; 0 stands for "no command", the top level.
pub type TemplateId = usize;

/// Something to run when an argument is found. Every closure that takes the
/// argument's values is one.
pub(crate) trait Callback {
    /// Whether the action may be run with `values`.
    spec fn takes(&self, values: Vec<String>) -> bool;

    /// Runs with the values of one occurrence of the argument. What the
    /// action may be run with stays the same.
    fn call(&mut self, values: Vec<String>)
        requires
            old(self).takes(values),
        ensures
            forall|v: Vec<String>| final(self).takes(v) == old(self).takes(v),
    ;
}

impl<F: FnMut(Vec<String>)> Callback for F {
    open spec fn takes(&self, values: Vec<String>) -> bool {
        call_requires(*self, (values,))
    }

    fn call(&mut self, values: Vec<String>) {
        invoke(self, values)
    }
}

/// Whether `action` may be run with every list of values.
pub(crate) open spec fn takes_all(action: &Box<dyn Callback>) -> bool {
    forall|v: Vec<String>| action.takes(v)
}

/// Whether `action`, if there is one, may be run with every list of values.
pub(crate) open spec fn ready(action: &Option<Box<dyn Callback>>) -> bool {
    match action {
        Some(a) => takes_all(a),
        None => true,
    }
}

/// Runs `action` with `values`. An action that may be run with every list
/// stays one.
pub(crate) fn run_action(action: &mut Box<dyn Callback>, values: Vec<String>)
    requires
        takes_all(old(action)),
    ensures
        takes_all(final(action)),
{
    action.call(values)
}

/// Calls the closure `action` with `values`, which it must accept. Of what
/// the closure does nothing is known and nothing is promised, but this: what
/// it accepts before the call it accepts after it. That holds of every
/// closure whose body is verified, since such a closure cannot change what it
/// has captured.
#[verifier::external_body]
fn invoke<F: FnMut(Vec<String>)>(action: &mut F, values: Vec<String>)
    requires
        call_requires(*old(action), (values,)),
    ensures
        forall|v: Vec<String>|
            call_requires(*final(action), (v,)) == call_requires(*old(action), (v,)),
{
    action(values)
}

/// A template as plain values.
pub struct TemplateView {
    /// The names that stand for the argument, in the order they were given.
    pub aliases: Seq<Seq<char>>,
    /// How many values the argument takes.
    pub arity: nat,
    /// Whether the argument may come with fewer values than `arity`.
    pub optional: bool,
    /// The line that describes the argument in the help text.
    pub help: Seq<char>,
    /// The identifier of the command this argument is a subcommand of.
    pub parent: Option<nat>,
    /// The identifier of the template; 0 until it is registered.
    pub id: nat,
    /// Whether something is run when the argument is found.
    pub has_action: bool,
}

impl TemplateView {
    /// A template without aliases that takes no values, has no command, no
    /// action and no help, and is not registered.
    pub open spec fn blank() -> TemplateView {
        TemplateView {
            aliases: Seq::empty(),
            arity: 0,
            optional: false,
            help: Seq::empty(),
            parent: None,
            id: 0,
            has_action: false,
        }
    }

    /// The context in which the argument is recognized: the identifier of its
    /// command, or 0 at the top level.
    pub open spec fn context(self) -> nat {
        match self.parent {
            Some(p) => p,
            None => 0,
        }
    }

    /// Whether `token` is one of the aliases.
    pub open spec fn owns(self, token: Seq<char>) -> bool {
        self.aliases.contains(token)
    }

    /// The template with one more alias, unless it has that alias already.
    pub open spec fn with_alias(self, name: Seq<char>) -> TemplateView {
        if self.aliases.contains(name) {
            self
        } else {
            TemplateView { aliases: self.aliases.push(name), ..self }
        }
    }
}

/// An identifier, if there is one, as a natural number.
pub open spec fn widen(id: Option<TemplateId>) -> Option<nat> {
    match id {
        Some(p) => Some(p as nat),
        None => None,
    }
}

/// Everything needed to recognize one argument and to take its values.
pub struct Template {
    matches: Vec<String>,
    num_values: usize,
    optional_vals: bool,
    help: String,
    subargument_of: Option<TemplateId>,
    id: TemplateId,
    action: Option<Box<dyn Callback>>,
}

impl View for Template {
    type V = TemplateView;

    closed spec fn view(&self) -> TemplateView {
        TemplateView {
            aliases: self.matches.deep_view(),
            arity: self.num_values as nat,
            optional: self.optional_vals,
            help: self.help@,
            parent: widen(self.subargument_of),
            id: self.id as nat,
            has_action: self.action is Some,
        }
    }
}

/// Whether `name` is one of `names`.
fn contains_name(names: &Vec<String>, name: &String) -> (found: bool)
    ensures
        found == names.deep_view().contains(name@),
{
    let mut i: usize = 0;
    while i < names.len()
        invariant
            i <= names.len(),
            forall|j: int| 0 <= j < i ==> names.deep_view()[j] != name@,
        decreases names.len() - i,
    {
        if names[i] == *name {
            assert(names.deep_view()[i as int] == name@);
            return true;
        }
        i = i + 1;
    }
    false
}

impl Template {
    /// The action of a template may be run with every list of values.
    #[verifier::type_invariant]
    spec fn inv(self) -> bool {
        ready(&self.action)
    }

    /// A template without aliases that takes no values.
    pub fn new() -> (t: Self)
        ensures
            t@ == TemplateView::blank(),
    {
        let t = Template {
            matches: Vec::new(),
            num_values: 0,
            optional_vals: false,
            help: String::new(),
            subargument_of: None,
            id: 0,
            action: None,
        };
        assert(t.matches.deep_view() =~= Seq::empty());
        t
    }

    /// Adds `name` as an alias. A name that the template has already is not
    /// added again.
    pub fn matches(self, name: &str) -> (t: Self)
        ensures
            t@ == self@.with_alias(name@),
    {
        proof {
            use_type_invariant(&self);
        }
        let name = name.to_owned();
        let mut matches = self.matches;
        if !contains_name(&matches, &name) {
            let ghost before = matches.deep_view();
            matches.push(name);
            assert(matches.deep_view() =~= before.push(name@));
        }
        Template {
            matches,
            num_values: self.num_values,
            optional_vals: self.optional_vals,
            help: self.help,
            subargument_of: self.subargument_of,
            id: self.id,
            action: self.action,
        }
    }

    /// Sets the number of values that the argument takes. With 0 it takes
    /// none, and can still have subcommands.
    pub fn number_of_values(self, nv: usize) -> (t: Self)
        ensures
            t@ == (TemplateView { arity: nv as nat, ..self@ }),
    {
        proof {
            use_type_invariant(&self);
        }
        Template {
            matches: self.matches,
            num_values: nv,
            optional_vals: self.optional_vals,
            help: self.help,
            subargument_of: self.subargument_of,
            id: self.id,
            action: self.action,
        }
    }

    /// Says whether the argument may come with fewer values than it takes.
    pub fn optional_values(self, ov: bool) -> (t: Self)
        ensures
            t@ == (TemplateView { optional: ov, ..self@ }),
    {
        proof {
            use_type_invariant(&self);
        }
        Template {
            matches: self.matches,
            num_values: self.num_values,
            optional_vals: ov,
            help: self.help,
            subargument_of: self.subargument_of,
            id: self.id,
            action: self.action,
        }
    }

    /// Sets the line that describes the argument in the help text.
    pub fn with_help(self, help_string: &str) -> (t: Self)
        ensures
            t@ == (TemplateView { help: help_string@, ..self@ }),
    {
        proof {
            use_type_invariant(&self);
        }
        Template {
            matches: self.matches,
            num_values: self.num_values,
            optional_vals: self.optional_vals,
            help: help_string.to_owned(),
            subargument_of: self.subargument_of,
            id: self.id,
            action: self.action,
        }
    }

    /// Sets what is run, with the values found, each time the argument occurs
    /// among the tokens. An earlier action is replaced.
    ///
    /// The action is run with whatever values are found, few or many, so it
    /// must accept every list of values.
    pub fn on_parse<F: FnMut(Vec<String>) + 'static>(self, action: F) -> (t: Self)
        requires
            forall|values: Vec<String>| call_requires(action, (values,)),
        ensures
            t@ == (TemplateView { has_action: true, ..self@ }),
    {
        let boxed: Box<dyn Callback> = Box::new(action);
        assert(takes_all(&boxed));
        Template {
            matches: self.matches,
            num_values: self.num_values,
            optional_vals: self.optional_vals,
            help: self.help,
            subargument_of: self.subargument_of,
            id: self.id,
            action: Some(boxed),
        }
    }

    /// The aliases, in the order they were given.
    pub fn aliases(&self) -> (aliases: &Vec<String>)
        ensures
            aliases.deep_view() == self@.aliases,
    {
        &self.matches
    }

    /// Whether `token` is one of the aliases.
    pub(crate) fn owns(&self, token: &String) -> (owned: bool)
        ensures
            owned == self@.owns(token@),
    {
        contains_name(&self.matches, token)
    }

    /// How many values the argument takes.
    pub fn arity(&self) -> (arity: usize)
        ensures
            arity as nat == self@.arity,
    {
        self.num_values
    }

    /// Whether the argument may come with fewer values than it takes.
    pub fn is_optional(&self) -> (optional: bool)
        ensures
            optional == self@.optional,
    {
        self.optional_vals
    }

    /// The line that describes the argument in the help text.
    pub fn help(&self) -> (help: &String)
        ensures
            help@ == self@.help,
    {
        &self.help
    }

    /// The identifier of the command this argument is a subcommand of.
    pub fn parent(&self) -> (parent: Option<TemplateId>)
        ensures
            self@.parent == widen(parent),
    {
        self.subargument_of
    }

    /// The context in which the argument is recognized.
    pub(crate) fn context(&self) -> (context: TemplateId)
        ensures
            context as nat == self@.context(),
    {
        match self.subargument_of {
            Some(p) => p,
            None => 0,
        }
    }

    /// The identifier of the template.
    pub fn id(&self) -> (id: TemplateId)
        ensures
            id as nat == self@.id,
    {
        self.id
    }

    /// Takes the action, if there is one, out of the template.
    pub(crate) fn take_action(&mut self) -> (action: Option<Box<dyn Callback>>)
        ensures
            final(self)@ == (TemplateView { has_action: false, ..old(self)@ }),
            action is Some == old(self)@.has_action,
            ready(&action),
    {
        proof {
            use_type_invariant(&*self);
        }
        let mut action: Option<Box<dyn Callback>> = None;
        std::mem::swap(&mut self.action, &mut action);
        action
    }

    /// Gives the template `action` as its action.
    pub(crate) fn put_action(&mut self, action: Box<dyn Callback>)
        requires
            takes_all(&action),
        ensures
            final(self)@ == (TemplateView { has_action: true, ..old(self)@ }),
    {
        self.action = Some(action);
    }

    /// Stamps the template with its identifier.
    pub(crate) fn set_id(&mut self, id: TemplateId)
        ensures
            final(self)@ == (TemplateView { id: id as nat, ..old(self)@ }),
    {
        proof {
            use_type_invariant(&*self);
        }
        self.id = id
    }

    /// Makes the template a subcommand of the command with identifier `id`.
    pub(crate) fn subarg(&mut self, id: TemplateId)
        ensures
            final(self)@ == (TemplateView { parent: Some(id as nat), ..old(self)@ }),
    {
        proof {
            use_type_invariant(&*self);
        }
        self.subargument_of = Some(id);
    }
}

impl Default for Template {
    /// A template without aliases that takes no values.
    fn default() -> (t: Self)
        ensures
            t@ == TemplateView::blank(),
    {
        Template::new()
    }
}

} // verus!
