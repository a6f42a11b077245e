//! Where a dialogue gets the text of its lines from.

use crate::diagnostic::option_string_view;
use crate::string_map::StringMap;
use std::fmt::Debug;
use vstd::prelude::*;

verus! {

/// The stable identifier of a line of dialogue.
#[derive(Debug, PartialEq, Eq, Hash)]
pub struct LineId(pub String);

impl Clone for LineId {
    fn clone(&self) -> (copy: LineId)
        ensures
            copy.0@ == self.0@,
    {
        LineId(self.0.clone())
    }
}

/// A source of the text of lines.
pub trait TextProvider: Debug + Send + Sync {
    /// The text that the provider has for the line of the given identifier.
    spec fn text_of(&self, id: Seq<char>) -> Option<Seq<char>>;

    /// The language that the provider was told to use.
    spec fn language_code(&self) -> Option<Seq<char>>;

    /// A provider with the same texts and the same language.
    fn clone_shallow(&self) -> (copy: Self) where Self: Sized
        ensures
            copy.language_code() == self.language_code(),
            forall|id: Seq<char>| copy.text_of(id) == self.text_of(id),
    ;

    /// The text of the given line, if the provider has one.
    fn get_text(&self, id: &LineId) -> (text: Option<String>)
        ensures
            option_string_view(text) == self.text_of(id.0@),
    ;

    /// Tells the provider which language to use. Its texts stay as they are.
    fn set_language_code(&mut self, language_code: String)
        ensures
            final(self).language_code() == Some(language_code@),
            forall|id: Seq<char>| final(self).text_of(id) == old(self).text_of(id),
    ;
}

/// A [`TextProvider`] that looks the text up in a table.
#[derive(Debug)]
pub struct StringTableTextProvider {
    string_table: StringMap<String>,
    language_code: Option<String>,
}

/// The text that a table has for an identifier.
pub open spec fn table_text(table: Map<Seq<char>, String>, id: Seq<char>) -> Option<Seq<char>> {
    if table.contains_key(id) {
        Some(table[id]@)
    } else {
        None
    }
}

impl StringTableTextProvider {
    /// The table in which the provider looks.
    pub closed spec fn string_table(&self) -> Map<Seq<char>, String> {
        self.string_table@
    }

    /// A provider without texts and without a language.
    pub fn new() -> (provider: Self)
        ensures
            provider.string_table() == Map::<Seq<char>, String>::empty(),
            provider.language_code() is None,
    {
        StringTableTextProvider { string_table: StringMap::new(), language_code: None }
    }

    /// A provider that looks in the given table and has no language.
    pub fn with_string_table(string_table: StringMap<String>) -> (provider: Self)
        ensures
            provider.string_table() == string_table@,
            provider.language_code() is None,
    {
        StringTableTextProvider { string_table, language_code: None }
    }

    /// Puts the given table in the place of the provider's. The language stays.
    pub fn set_string_table(&mut self, string_table: StringMap<String>)
        ensures
            final(self).string_table() == string_table@,
            final(self).language_code() == old(self).language_code(),
    {
        self.string_table = string_table;
    }
}

impl Default for StringTableTextProvider {
    fn default() -> (provider: Self)
        ensures
            provider.string_table() == Map::<Seq<char>, String>::empty(),
            provider.language_code() is None,
    {
        StringTableTextProvider::new()
    }
}

impl Clone for StringTableTextProvider {
    fn clone(&self) -> (copy: Self)
        ensures
            copy.string_table() == self.string_table(),
            copy.language_code() == self.language_code(),
    {
        self.clone_shallow()
    }
}

impl TextProvider for StringTableTextProvider {
    open spec fn text_of(&self, id: Seq<char>) -> Option<Seq<char>> {
        table_text(self.string_table(), id)
    }

    closed spec fn language_code(&self) -> Option<Seq<char>> {
        option_string_view(self.language_code)
    }

    fn clone_shallow(&self) -> (copy: Self)
        ensures
            copy.string_table() == self.string_table(),
    {
        let mut string_table: StringMap<String> = StringMap::new();
        let entries = self.string_table.entries();
        let mut i: usize = 0;
        while i < entries.len()
            invariant
                i <= entries@.len(),
                string_table@ == crate::string_map::entries_to_map(entries@.take(i as int)),
            decreases entries@.len() - i,
        {
            assert(entries@.take(i + 1).drop_last() =~= entries@.take(i as int));
            string_table.insert(entries[i].0.clone(), entries[i].1.clone());
            i += 1;
        }
        assert(entries@.take(entries@.len() as int) =~= entries@);
        let language_code = match &self.language_code {
            Some(code) => Some(code.clone()),
            None => None,
        };
        StringTableTextProvider { string_table, language_code }
    }

    fn get_text(&self, id: &LineId) -> (text: Option<String>) {
        match self.string_table.get(&id.0) {
            Some(text) => Some(text.clone()),
            None => None,
        }
    }

    fn set_language_code(&mut self, language_code: String) {
        self.language_code = Some(language_code);
    }
}

} // verus!
