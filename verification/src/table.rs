//! The macro definition table of one compilation unit, and the policy that
//! keeps reserved builtins from being shadowed.

use vstd::prelude::*;
use crate::token::{ItemModel, TokenTree};

verus! {

/// The name under which the stringifying builtin is known.
pub const STRINGIFY: &'static str = "stringify";

/// The macros that the compiler implements itself.
#[derive(Clone, Copy, Debug, PartialEq, Eq, Structural)]
pub enum BuiltinKind {
    /// Renders its captured tokens as a string literal.
    Stringify,
}

/// One rule of a user-defined macro: what it matches and what it gives.
#[derive(Debug, PartialEq, Eq)]
pub struct MacroRule {
    pub matcher: TokenTree,
    pub transcriber: TokenTree,
}

/// What a macro name stands for.
#[derive(Debug, PartialEq, Eq)]
pub enum MacroDefinition {
    /// Implemented by the compiler.
    Builtin(BuiltinKind),
    /// Declared in the source with pattern rules.
    UserDefined(Vec<MacroRule>),
}

/// Mathematical model of a [`MacroRule`].
pub ghost struct RuleModel {
    pub matcher: Seq<ItemModel>,
    pub transcriber: Seq<ItemModel>,
}

/// Mathematical model of a [`MacroDefinition`].
pub ghost enum DefinitionModel {
    Builtin(BuiltinKind),
    UserDefined(Seq<RuleModel>),
}

/// Mathematical model of a [`MacroDefinitionTable`].
pub ghost struct TableModel {
    /// The definition that each known name stands for.
    pub definitions: Map<Seq<char>, DefinitionModel>,
    /// The names whose builtin definition no later declaration replaces.
    pub reserved: Set<Seq<char>>,
}

impl View for MacroRule {
    type V = RuleModel;

    open spec fn view(&self) -> RuleModel {
        RuleModel { matcher: self.matcher@, transcriber: self.transcriber@ }
    }
}

/// The models of a vector of rules, in order.
pub open spec fn rule_models(rules: Seq<MacroRule>) -> Seq<RuleModel> {
    Seq::new(rules.len(), |i: int| rules[i]@)
}

impl View for MacroDefinition {
    type V = DefinitionModel;

    open spec fn view(&self) -> DefinitionModel {
        match self {
            MacroDefinition::Builtin(kind) => DefinitionModel::Builtin(*kind),
            MacroDefinition::UserDefined(rules) => DefinitionModel::UserDefined(rule_models(rules@)),
        }
    }
}

/// The set of the given names.
pub open spec fn names_of(names: Seq<String>) -> Set<Seq<char>> {
    Set::new(|name: Seq<char>| exists|i: int| 0 <= i < names.len() && #[trigger] names[i]@ == name)
}

/// Whether `name` is reserved and stands for a builtin: a declaration of that
/// name is then passed over.
pub open spec fn is_protected(table: TableModel, name: Seq<char>) -> bool {
    &&& table.reserved.contains(name)
    &&& table.definitions.dom().contains(name)
    &&& table.definitions[name] is Builtin
}

/// The table after a declaration of `name`: the new definition takes the
/// place of any earlier one, unless the name is protected, in which case the
/// table stays as it is.
pub open spec fn insert_spec(
    table: TableModel,
    name: Seq<char>,
    definition: DefinitionModel,
) -> TableModel {
    if is_protected(table, name) {
        table
    } else {
        TableModel { definitions: table.definitions.insert(name, definition), ..table }
    }
}

/// The table with which a compilation unit starts: the stringifying builtin
/// under its reserved name.
pub open spec fn builtin_table() -> TableModel {
    TableModel {
        definitions: map![STRINGIFY@ => DefinitionModel::Builtin(BuiltinKind::Stringify)],
        reserved: set![STRINGIFY@],
    }
}

/// A name with the definition recorded for it.
struct Entry {
    name: String,
    definition: MacroDefinition,
}

/// The definitions that a run of entries stands for: for each name that of
/// its latest entry.
spec fn entries_map(entries: Seq<Entry>) -> Map<Seq<char>, DefinitionModel>
    decreases entries.len(),
{
    if entries.len() == 0 {
        Map::empty()
    } else {
        entries_map(entries.drop_last()).insert(entries.last().name@, entries.last().definition@)
    }
}

/// The macro definitions of one compilation unit.
pub struct MacroDefinitionTable {
    entries: Vec<Entry>,
    reserved: Vec<String>,
}

impl View for MacroDefinitionTable {
    type V = TableModel;

    closed spec fn view(&self) -> TableModel {
        TableModel { definitions: entries_map(self.entries@), reserved: names_of(self.reserved@) }
    }
}

/// Whether `name` is among `names`.
fn contains_name(names: &Vec<String>, name: &String) -> (found: bool)
    ensures
        found == names_of(names@).contains(name@),
{
    let mut i: usize = 0;
    while i < names.len()
        invariant
            i <= names.len(),
            forall|k: int| 0 <= k < i ==> #[trigger] names@[k]@ != name@,
        decreases names.len() - i,
    {
        if names[i] == *name {
            return true;
        }
        i += 1;
    }
    false
}

/// Whether `i` is where the latest declaration of `name` stands.
spec fn is_latest(entries: Seq<Entry>, name: Seq<char>, i: int) -> bool {
    &&& 0 <= i < entries.len()
    &&& entries[i].name@ == name
    &&& forall|k: int| i < k < entries.len() ==> (#[trigger] entries[k]).name@ != name
}

/// Whether no declaration of `name` was made.
spec fn is_absent(entries: Seq<Entry>, name: Seq<char>) -> bool {
    forall|k: int| 0 <= k < entries.len() ==> (#[trigger] entries[k]).name@ != name
}

/// A name stands for what its latest declaration gave it.
proof fn lemma_latest_is_stored(entries: Seq<Entry>, name: Seq<char>, i: int)
    requires
        is_latest(entries, name, i),
    ensures
        entries_map(entries).dom().contains(name),
        entries_map(entries)[name] == entries[i].definition@,
    decreases entries.len(),
{
    if i < entries.len() - 1 {
        let front = entries.drop_last();
        assert(entries.last().name@ != name);
        assert(is_latest(front, name, i)) by {
            assert forall|k: int| i < k < front.len() implies (#[trigger] front[k]).name@
                != name by {
                assert(front[k] == entries[k]);
            }
        }
        lemma_latest_is_stored(front, name, i);
    }
}

/// A name that was never declared stands for nothing.
proof fn lemma_absent_is_unknown(entries: Seq<Entry>, name: Seq<char>)
    requires
        is_absent(entries, name),
    ensures
        !entries_map(entries).dom().contains(name),
    decreases entries.len(),
{
    if entries.len() > 0 {
        let front = entries.drop_last();
        assert(entries.last().name@ != name);
        assert(is_absent(front, name)) by {
            assert forall|k: int| 0 <= k < front.len() implies (#[trigger] front[k]).name@
                != name by {
                assert(front[k] == entries[k]);
            }
        }
        lemma_absent_is_unknown(front, name);
    }
}

/// Putting a new declaration in the place of the latest one of its name
/// gives the name its new definition and changes nothing else.
proof fn lemma_replace_latest(entries: Seq<Entry>, i: int, entry: Entry)
    requires
        is_latest(entries, entry.name@, i),
    ensures
        entries_map(entries.update(i, entry)) == entries_map(entries).insert(
            entry.name@,
            entry.definition@,
        ),
    decreases entries.len(),
{
    let after = entries.update(i, entry);
    let front = entries.drop_last();
    if i == entries.len() - 1 {
        assert(after.drop_last() =~= front);
        assert(entries_map(after) =~= entries_map(entries).insert(
            entry.name@,
            entry.definition@,
        ));
    } else {
        assert(entries.last().name@ != entry.name@);
        assert(is_latest(front, entry.name@, i)) by {
            assert forall|k: int| i < k < front.len() implies (#[trigger] front[k]).name@
                != entry.name@ by {
                assert(front[k] == entries[k]);
            }
        }
        lemma_replace_latest(front, i, entry);
        assert(after.drop_last() =~= front.update(i, entry));
        assert(after.last() == entries.last());
        assert(entries_map(after) =~= entries_map(entries).insert(
            entry.name@,
            entry.definition@,
        ));
    }
}

/// Where the latest declaration of `name` stands, if there is one.
fn find(entries: &Vec<Entry>, name: &String) -> (found: Option<usize>)
    ensures
        match found {
            Some(i) => is_latest(entries@, name@, i as int),
            None => is_absent(entries@, name@),
        },
{
    let mut i: usize = entries.len();
    while i > 0
        invariant
            i <= entries.len(),
            forall|k: int| i <= k < entries.len() ==> (#[trigger] entries@[k]).name@ != name@,
        decreases i,
    {
        i -= 1;
        if entries[i].name == *name {
            return Some(i);
        }
    }
    None
}

impl MacroDefinitionTable {
    /// A table without definitions, in which the given names are reserved.
    pub fn new(reserved: Vec<String>) -> (table: MacroDefinitionTable)
        ensures
            table@ == (TableModel { definitions: Map::empty(), reserved: names_of(reserved@) }),
    {
        MacroDefinitionTable { entries: Vec::new(), reserved }
    }

    /// The table with which a compilation unit starts: the stringifying
    /// builtin under its name, and that name reserved.
    pub fn with_builtins() -> (table: MacroDefinitionTable)
        ensures
            table@ == builtin_table(),
    {
        let mut reserved: Vec<String> = Vec::new();
        reserved.push(STRINGIFY.to_owned());
        let mut table = MacroDefinitionTable::new(reserved);
        table.insert(STRINGIFY.to_owned(), MacroDefinition::Builtin(BuiltinKind::Stringify));
        proof {
            assert(reserved@[0]@ == STRINGIFY@);
            assert(table@.reserved =~= set![STRINGIFY@]);
            assert(table@.definitions =~= map![STRINGIFY@ => DefinitionModel::Builtin(
                BuiltinKind::Stringify,
            )]);
        }
        table
    }

    /// Whether a builtin under `name` is kept against later declarations.
    pub fn is_reserved(&self, name: &str) -> (reserved: bool)
        ensures
            reserved == self@.reserved.contains(name@),
    {
        let key = name.to_owned();
        contains_name(&self.reserved, &key)
    }

    /// The definition that `name` stands for, if it has one.
    pub fn lookup(&self, name: &str) -> (found: Option<&MacroDefinition>)
        ensures
            match found {
                Some(definition) => self@.definitions.dom().contains(name@)
                    && self@.definitions[name@] == definition@,
                None => !self@.definitions.dom().contains(name@),
            },
    {
        let key = name.to_owned();
        match find(&self.entries, &key) {
            Some(i) => {
                proof {
                    lemma_latest_is_stored(self.entries@, name@, i as int);
                }
                Some(&self.entries[i].definition)
            },
            None => {
                proof {
                    lemma_absent_is_unknown(self.entries@, name@);
                }
                None
            },
        }
    }

    /// Records a declaration of `name`.
    ///
    /// The definition takes the place of any earlier one under that name.
    /// The one exception is a reserved name that stands for a builtin: the
    /// builtin stays and the declaration is passed over, without an error.
    pub fn insert(&mut self, name: String, definition: MacroDefinition)
        ensures
            final(self)@ == insert_spec(old(self)@, name@, definition@),
    {
        match find(&self.entries, &name) {
            Some(i) => {
                proof {
                    lemma_latest_is_stored(self.entries@, name@, i as int);
                }
                let builtin = match &self.entries[i].definition {
                    MacroDefinition::Builtin(_) => true,
                    MacroDefinition::UserDefined(_) => false,
                };
                if !(builtin && contains_name(&self.reserved, &name)) {
                    let entry = Entry { name, definition };
                    proof {
                        lemma_replace_latest(self.entries@, i as int, entry);
                    }
                    self.entries.set(i, entry);
                }
            },
            None => {
                proof {
                    lemma_absent_is_unknown(self.entries@, name@);
                }
                self.entries.push(Entry { name, definition });
                assert(self.entries@.drop_last() =~= old(self).entries@);
            },
        }
    }
}

} // verus!
