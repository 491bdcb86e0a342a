//! The help text: a heading, then one line for each registered argument, with
//! subcommands below their command.

use vstd::prelude::*;
use vstd::string::StringExecFns;
use vstd::utf8::encode_utf8;
use crate::parser::{Parser, ParserView};
use crate::template::{Template, TemplateView};
use crate::text::{decimal, push_decimal, push_spaces, repeat};

verus! {

/// How many bytes `text` takes. Columns are lined up by this number.
pub open spec fn width(text: Seq<char>) -> nat {
    encode_utf8(text).len()
}

/// The aliases, with ` | ` between them.
pub open spec fn joined(aliases: Seq<Seq<char>>) -> Seq<char>
    decreases aliases.len(),
{
    if aliases.len() == 0 {
        Seq::empty()
    } else if aliases.len() == 1 {
        aliases[0]
    } else {
        joined(aliases.drop_last()) + " | "@ + aliases.last()
    }
}

/// What the help text says of the values of an argument: nothing where it
/// takes none, else their number, and whether they may be left out.
pub open spec fn values_note(template: TemplateView) -> Seq<char> {
    if template.arity > 0 {
        " ["@ + decimal(template.arity) + (if template.optional {
            " optional "@
        } else {
            " "@
        }) + "values]"@
    } else {
        Seq::empty()
    }
}

/// The left column of the line of an argument: its aliases and its values.
pub open spec fn label(template: TemplateView) -> Seq<char> {
    joined(template.aliases) + values_note(template)
}

/// The width of the widest label; 0 without templates.
pub open spec fn widest_label(templates: Seq<TemplateView>) -> nat
    decreases templates.len(),
{
    if templates.len() == 0 {
        0
    } else {
        let before = widest_label(templates.drop_last());
        let last = width(label(templates.last()));
        if last > before {
            last
        } else {
            before
        }
    }
}

/// One line of the list of arguments: which template it shows, and how deep
/// below the top level.
pub struct Row {
    /// The place of the template among the registered ones.
    pub place: int,
    /// 0 for a top-level argument, 1 for its subcommands, and so on.
    pub level: nat,
}

/// The first of `rows` that shows the template with identifier `id`.
pub open spec fn row_of(rows: Seq<Row>, templates: Seq<TemplateView>, id: nat) -> Option<int>
    decreases rows.len(),
{
    if rows.len() == 0 {
        None
    } else {
        match row_of(rows.drop_last(), templates, id) {
            Some(k) => Some(k),
            None => if templates[rows.last().place].id == id {
                Some(rows.len() - 1)
            } else {
                None
            },
        }
    }
}

/// The rows for the first `upto` templates. The templates are taken in the
/// order of their registration: a top-level argument goes to the end of the
/// list, a subcommand directly below its command, one level deeper. A
/// subcommand whose command has no row gets none.
pub open spec fn layout(templates: Seq<TemplateView>, upto: int) -> Seq<Row>
    decreases upto,
{
    if upto <= 0 {
        Seq::empty()
    } else {
        let rows = layout(templates, upto - 1);
        let place = upto - 1;
        match templates[place].parent {
            None => rows.push(Row { place, level: 0 }),
            Some(command) => match row_of(rows, templates, command) {
                Some(k) => rows.insert(k + 1, Row { place, level: rows[k].level + 1 }),
                None => rows,
            },
        }
    }
}

/// The greatest level among `rows`; 0 without rows.
pub open spec fn deepest(rows: Seq<Row>) -> nat
    decreases rows.len(),
{
    if rows.len() == 0 {
        0
    } else {
        let before = deepest(rows.drop_last());
        if rows.last().level > before {
            rows.last().level
        } else {
            before
        }
    }
}

/// The width of the left column at the top level: the widest label and four
/// spaces, and four more for each level that the deepest row is below the
/// top.
pub open spec fn column(widest: nat, depth: nat) -> nat {
    widest + 4 + 4 * depth
}

/// How many spaces fill a text of `taken` bytes up to `upto` bytes: none where
/// the text is as wide or wider.
pub open spec fn filling(taken: nat, upto: nat) -> nat {
    if upto > taken {
        (upto - taken) as nat
    } else {
        0
    }
}

/// The line of `row`: indented by four spaces and four more for each level,
/// the label filled up with spaces to the column, then the help of the
/// argument.
pub open spec fn line(templates: Seq<TemplateView>, row: Row, widest: nat, depth: nat) -> Seq<char> {
    let template = templates[row.place];
    "    "@ + repeat(' ', 4 * row.level) + label(template) + repeat(
        ' ',
        filling(4 * row.level + width(label(template)), column(widest, depth)),
    ) + " "@ + template.help + "\n"@
}

/// The lines of `rows`, one below the other.
pub open spec fn lines(templates: Seq<TemplateView>, rows: Seq<Row>, widest: nat, depth: nat) -> Seq<
    char,
>
    decreases rows.len(),
{
    if rows.len() == 0 {
        Seq::empty()
    } else {
        lines(templates, rows.drop_last(), widest, depth) + line(
            templates,
            rows.last(),
            widest,
            depth,
        )
    }
}

/// The name of the program and its description, as the help text opens: the
/// name without a line break, the description behind `: ` and with one, each
/// only where it is not empty.
pub open spec fn title(parser: ParserView) -> Seq<char> {
    (if parser.program_name.len() > 0 {
        parser.program_name
    } else {
        Seq::empty()
    }) + (if parser.description.len() > 0 {
        ": "@ + parser.description + "\n"@
    } else {
        Seq::empty()
    })
}

/// The line that names the author; nothing where no author was set.
pub open spec fn author_line(parser: ParserView) -> Seq<char> {
    if parser.author.len() > 0 {
        "Author: "@ + parser.author + "\n"@
    } else {
        Seq::empty()
    }
}

/// The usage, which is made from the name of the program where none was set.
pub open spec fn usage_lines(parser: ParserView) -> Seq<char> {
    if parser.usage.len() > 0 {
        "Usage:\n    "@ + parser.usage + "\n"@
    } else {
        "Usage:\n    $ "@ + parser.program_name + " -[-command] [value/s...]\n"@
    }
}

/// The lines above the list of arguments.
pub open spec fn heading(parser: ParserView) -> Seq<char> {
    title(parser) + author_line(parser) + usage_lines(parser)
}

/// The last line of the list, on the help itself, filled up to the column
/// where the column is wider than its label.
pub open spec fn closing(widest: nat, depth: nat) -> Seq<char> {
    "    "@ + "-h, --help"@ + repeat(' ', filling(10, column(widest, depth)))
        + " Print this help message!"@
}

/// The help text that is made from the registered templates.
pub open spec fn generated(parser: ParserView) -> Seq<char> {
    let rows = layout(parser.templates, parser.templates.len() as int);
    let widest = widest_label(parser.templates);
    let depth = deepest(rows);
    heading(parser) + "Arguments:\n"@ + lines(parser.templates, rows, widest, depth) + closing(
        widest,
        depth,
    )
}

/// The help text of the parser: the one that was set, else the generated one.
pub open spec fn help_text(parser: ParserView) -> Seq<char> {
    match parser.help {
        Some(text) => text,
        None => generated(parser),
    }
}

/// The left column of the line of `template`.
fn label_of(template: &Template) -> (text: String)
    ensures
        text@ == label(template@),
{
    let aliases = template.aliases();
    let mut text = String::new();
    let mut i: usize = 0;
    while i < aliases.len()
        invariant
            i <= aliases.len(),
            text@ == joined(aliases.deep_view().take(i as int)),
        decreases aliases.len() - i,
    {
        let ghost before = aliases.deep_view().take(i as int);
        let ghost after = aliases.deep_view().take(i + 1);
        assert(after.drop_last() =~= before);
        assert(after.last() == aliases[i as int]@);
        if i > 0 {
            text.append(" | ");
        }
        text.append(aliases[i].as_str());
        i = i + 1;
        assert(text@ =~= joined(after));
    }
    assert(aliases.deep_view().take(i as int) =~= aliases.deep_view());
    let arity: usize = template.arity();
    if arity > 0 {
        text.append(" [");
        push_decimal(&mut text, arity);
        if template.is_optional() {
            text.append(" optional ");
        } else {
            text.append(" ");
        }
        text.append("values]");
    }
    assert(text@ =~= label(template@));
    text
}

/// The label of each of `templates` is no wider than the widest.
proof fn lemma_widest_label(templates: Seq<TemplateView>, place: int)
    requires
        0 <= place < templates.len(),
    ensures
        width(label(templates[place])) <= widest_label(templates),
    decreases templates.len(),
{
    if place < templates.len() - 1 {
        lemma_widest_label(templates.drop_last(), place);
    }
}

/// Each of `rows` is no deeper than the deepest.
proof fn lemma_deepest(rows: Seq<Row>, k: int)
    requires
        0 <= k < rows.len(),
    ensures
        rows[k].level <= deepest(rows),
    decreases rows.len(),
{
    if k < rows.len() - 1 {
        lemma_deepest(rows.drop_last(), k);
    }
}

/// `row_of` gives the first row that shows the template, and nothing exactly
/// when no row shows it.
proof fn lemma_row_of(rows: Seq<Row>, templates: Seq<TemplateView>, id: nat)
    ensures
        match row_of(rows, templates, id) {
            Some(k) => {
                &&& 0 <= k < rows.len()
                &&& templates[rows[k].place].id == id
                &&& forall|j: int| 0 <= j < k ==> templates[(#[trigger] rows[j]).place].id != id
            },
            None => forall|j: int|
                0 <= j < rows.len() ==> templates[(#[trigger] rows[j]).place].id != id,
        },
    decreases rows.len(),
{
    if rows.len() > 0 {
        let front = rows.drop_last();
        lemma_row_of(front, templates, id);
        assert forall|j: int| 0 <= j < front.len() implies front[j] == rows[j] by {}
    }
}

/// A row of the list as the machine holds it.
struct Entry {
    place: usize,
    level: usize,
}

impl View for Entry {
    type V = Row;

    closed spec fn view(&self) -> Row {
        Row { place: self.place as int, level: self.level as nat }
    }
}

/// The rows that `entries` stand for.
spec fn rows_of(entries: Seq<Entry>) -> Seq<Row> {
    Seq::new(entries.len(), |i: int| entries[i]@)
}

/// Whether each of `rows` shows one of the first `upto` templates, no deeper
/// than `upto` levels.
spec fn within(rows: Seq<Row>, upto: int) -> bool {
    forall|k: int| 0 <= k < rows.len() ==> 0 <= (#[trigger] rows[k]).place < upto && rows[k].level
        < upto
}

/// The rows for the first `upto` templates show only those, and none is as
/// deep as there are templates.
proof fn lemma_layout_within(templates: Seq<TemplateView>, upto: int)
    requires
        0 <= upto <= templates.len(),
    ensures
        within(layout(templates, upto), upto),
    decreases upto,
{
    if upto > 0 {
        lemma_layout_within(templates, upto - 1);
        let rows = layout(templates, upto - 1);
        let place = upto - 1;
        match templates[place].parent {
            None => {},
            Some(command) => {
                lemma_row_of(rows, templates, command);
                match row_of(rows, templates, command) {
                    Some(k) => {
                        let row = Row { place, level: rows[k].level + 1 };
                        let after = rows.insert(k + 1, row);
                        assert forall|j: int| 0 <= j < after.len() implies 0 <= (
                        #[trigger] after[j]).place < upto && after[j].level < upto by {
                            if j <= k {
                                assert(after[j] == rows[j]);
                            } else if j == k + 1 {
                            } else {
                                assert(after[j] == rows[j - 1]);
                            }
                        }
                    },
                    None => {},
                }
            },
        }
    }
}

impl Parser {
    /// The width of the widest label.
    fn widest_label(&self) -> (widest: usize)
        ensures
            widest as nat == widest_label(self@.templates),
    {
        let count: usize = self.count();
        let mut widest: usize = 0;
        let mut i: usize = 0;
        while i < count
            invariant
                i <= count,
                count == self@.templates.len(),
                widest as nat == widest_label(self@.templates.take(i as int)),
            decreases count - i,
        {
            assert(self@.templates.take(i + 1).drop_last() =~= self@.templates.take(i as int));
            let text = label_of(self.template_at(i));
            let wide: usize = text.as_str().as_bytes().len();
            if wide > widest {
                widest = wide;
            }
            i = i + 1;
        }
        assert(self@.templates.take(i as int) =~= self@.templates);
        widest
    }

    /// The first of `entries` that shows the template with identifier `id`.
    fn find_row(&self, entries: &Vec<Entry>, id: usize) -> (found: Option<usize>)
        requires
            within(rows_of(entries@), self@.templates.len() as int),
        ensures
            match row_of(rows_of(entries@), self@.templates, id as nat) {
                Some(k) => found == Some(k as usize) && 0 <= k < entries.len(),
                None => found is None,
            },
    {
        let ghost rows = rows_of(entries@);
        let mut k: usize = 0;
        while k < entries.len()
            invariant
                k <= entries.len(),
                rows == rows_of(entries@),
                within(rows, self@.templates.len() as int),
                forall|j: int| 0 <= j < k ==> self@.templates[(#[trigger] rows[j]).place].id != id,
            decreases entries.len() - k,
        {
            assert(rows[k as int] == entries[k as int]@);
            if self.template_at(entries[k].place).id() == id {
                proof {
                    lemma_row_of(rows, self@.templates, id as nat);
                }
                return Some(k);
            }
            k = k + 1;
        }
        proof {
            lemma_row_of(rows, self@.templates, id as nat);
        }
        None
    }

    /// The rows of the list of arguments.
    fn layout(&self) -> (entries: Vec<Entry>)
        ensures
            rows_of(entries@) == layout(self@.templates, self@.templates.len() as int),
            within(rows_of(entries@), self@.templates.len() as int),
    {
        let count: usize = self.count();
        let mut entries: Vec<Entry> = Vec::new();
        let mut n: usize = 0;
        assert(rows_of(entries@) =~= layout(self@.templates, 0));
        while n < count
            invariant
                n <= count,
                count == self@.templates.len(),
                rows_of(entries@) == layout(self@.templates, n as int),
                within(rows_of(entries@), n as int),
            decreases count - n,
        {
            let ghost rows = rows_of(entries@);
            proof {
                lemma_layout_within(self@.templates, n + 1);
            }
            match self.template_at(n).parent() {
                None => {
                    entries.push(Entry { place: n, level: 0 });
                    assert(rows_of(entries@) =~= rows.push(Row { place: n as int, level: 0 }));
                },
                Some(command) => {
                    match self.find_row(&entries, command) {
                        Some(k) => {
                            assert(rows[k as int] == entries[k as int]@);
                            let level: usize = entries[k].level + 1;
                            entries.insert(k + 1, Entry { place: n, level });
                            assert(rows_of(entries@) =~= rows.insert(
                                k + 1,
                                Row { place: n as int, level: level as nat },
                            ));
                        },
                        None => {},
                    }
                },
            }
            n = n + 1;
        }
        entries
    }

    /// Appends the name of the program and its description to `out`.
    fn push_title(&self, out: &mut String)
        ensures
            final(out)@ == old(out)@ + title(self@),
    {
        if !self.program_name().as_str().is_empty() {
            out.append(self.program_name().as_str());
        }
        if !self.description().as_str().is_empty() {
            out.append(": ");
            out.append(self.description().as_str());
            out.append("\n");
        }
        assert(out@ =~= old(out)@ + title(self@));
    }

    /// Appends the line that names the author to `out`.
    fn push_author(&self, out: &mut String)
        ensures
            final(out)@ == old(out)@ + author_line(self@),
    {
        if !self.author().as_str().is_empty() {
            out.append("Author: ");
            out.append(self.author().as_str());
            out.append("\n");
        }
        assert(out@ =~= old(out)@ + author_line(self@));
    }

    /// Appends the usage to `out`.
    fn push_usage(&self, out: &mut String)
        ensures
            final(out)@ == old(out)@ + usage_lines(self@),
    {
        if !self.usage().as_str().is_empty() {
            out.append("Usage:\n    ");
            out.append(self.usage().as_str());
            out.append("\n");
        } else {
            out.append("Usage:\n    $ ");
            out.append(self.program_name().as_str());
            out.append(" -[-command] [value/s...]\n");
        }
        assert(out@ =~= old(out)@ + usage_lines(self@));
    }

    /// Appends the lines above the list of arguments to `out`.
    fn push_heading(&self, out: &mut String)
        ensures
            final(out)@ == old(out)@ + heading(self@),
    {
        self.push_title(out);
        self.push_author(out);
        self.push_usage(out);
        assert(out@ =~= old(out)@ + heading(self@));
    }

    /// Appends the line of `entry` to `out`.
    fn push_line(&self, out: &mut String, entry: &Entry, widest: usize, depth: usize)
        requires
            0 <= entry@.place < self@.templates.len(),
            entry@.level <= depth,
            width(label(self@.templates[entry@.place])) <= widest,
        ensures
            final(out)@ == old(out)@ + line(self@.templates, entry@, widest as nat, depth as nat),
    {
        let template = self.template_at(entry.place);
        let text = label_of(template);
        let wide: usize = text.as_str().as_bytes().len();
        let indent: u128 = 4 * (entry.level as u128);
        let column: u128 = widest as u128 + 4 + 4 * (depth as u128);
        out.append("    ");
        push_spaces(out, indent);
        out.append(text.as_str());
        push_spaces(out, column - indent - wide as u128);
        out.append(" ");
        out.append(template.help().as_str());
        out.append("\n");
        assert(out@ =~= old(out)@ + line(
            self@.templates,
            entry@,
            widest as nat,
            depth as nat,
        ));
    }

    /// Makes the help text from the registered templates.
    fn create_help(&self) -> (text: String)
        ensures
            text@ == generated(self@),
    {
        let mut text = String::new();
        self.push_heading(&mut text);
        let widest: usize = self.widest_label();
        let entries = self.layout();
        let depth: usize = deepest_of(&entries);
        let ghost rows = rows_of(entries@);
        text.append("Arguments:\n");
        let ghost top = text@;
        assert(top =~= heading(self@) + "Arguments:\n"@);
        let mut k: usize = 0;
        while k < entries.len()
            invariant
                k <= entries.len(),
                rows == rows_of(entries@),
                within(rows, self@.templates.len() as int),
                widest as nat == widest_label(self@.templates),
                depth as nat == deepest(rows),
                text@ == top + lines(
                    self@.templates,
                    rows.take(k as int),
                    widest as nat,
                    depth as nat,
                ),
            decreases entries.len() - k,
        {
            proof {
                assert(rows[k as int] == entries[k as int]@);
                assert(rows.take(k + 1).drop_last() =~= rows.take(k as int));
                lemma_deepest(rows, k as int);
                lemma_widest_label(self@.templates, rows[k as int].place);
            }
            self.push_line(&mut text, &entries[k], widest, depth);
            k = k + 1;
        }
        assert(rows.take(k as int) =~= rows);
        let column: u128 = widest as u128 + 4 + 4 * (depth as u128);
        text.append("    ");
        text.append("-h, --help");
        if column > 10 {
            push_spaces(&mut text, column - 10);
        }
        text.append(" Print this help message!");
        assert(text@ =~= top + lines(self@.templates, rows, widest as nat, depth as nat) + closing(
            widest as nat,
            depth as nat,
        ));
        assert(text@ =~= generated(self@));
        text
    }

    /// The help text of the parser: the one that was set, else one made from
    /// the registered templates.
    pub fn help_text(&self) -> (text: String)
        ensures
            text@ == help_text(self@),
    {
        match self.custom_help() {
            Some(text) => text.clone(),
            None => self.create_help(),
        }
    }
}

/// The greatest level among `entries`.
fn deepest_of(entries: &Vec<Entry>) -> (depth: usize)
    ensures
        depth as nat == deepest(rows_of(entries@)),
{
    let ghost rows = rows_of(entries@);
    let mut depth: usize = 0;
    let mut k: usize = 0;
    while k < entries.len()
        invariant
            k <= entries.len(),
            rows == rows_of(entries@),
            depth as nat == deepest(rows.take(k as int)),
        decreases entries.len() - k,
    {
        assert(rows.take(k + 1).drop_last() =~= rows.take(k as int));
        assert(rows[k as int] == entries[k as int]@);
        if entries[k].level > depth {
            depth = entries[k].level;
        }
        k = k + 1;
    }
    assert(rows.take(k as int) =~= rows);
    depth
}

} // verus!
