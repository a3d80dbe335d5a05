//! The index of localised strings: category, then key, then string.

use crate::search::{first_true, lemma_first_true, lemma_is_first_true};
use crate::text::{
    char_flags, chars_of, find_char, find_in_range, is_one_of, names_of, string_of, text_eq, trim,
    trim_range,
};
use vstd::prelude::*;
use vstd::slice::slice_subrange;

verus! {

/// What a [`Category`] stands for: its name and its entries, each a key and
/// its string, in the order in which the keys were first seen.
pub struct CategoryView {
    pub name: Seq<char>,
    pub entries: Seq<(Seq<char>, Seq<char>)>,
}

/// Where each entry has the key `key`.
pub open spec fn key_flags(entries: Seq<(Seq<char>, Seq<char>)>, key: Seq<char>) -> Seq<bool> {
    Seq::new(entries.len(), |i: int| entries[i].0 == key)
}

/// The position of the entry with the key `key`.
pub open spec fn entry_index(entries: Seq<(Seq<char>, Seq<char>)>, key: Seq<char>) -> Option<int> {
    first_true(key_flags(entries, key))
}

/// The entries after `key` was given the string `value`: the entry of the
/// key has the new string, or a new entry stands at the end.
pub open spec fn put(entries: Seq<(Seq<char>, Seq<char>)>, key: Seq<char>, value: Seq<char>) -> Seq<
    (Seq<char>, Seq<char>),
> {
    match entry_index(entries, key) {
        Some(i) => entries.update(i, (key, value)),
        None => entries.push((key, value)),
    }
}

/// The string of `key` among the entries.
pub open spec fn entry_value(entries: Seq<(Seq<char>, Seq<char>)>, key: Seq<char>) -> Option<
    Seq<char>,
> {
    match entry_index(entries, key) {
        Some(i) => Some(entries[i].1),
        None => None,
    }
}

impl CategoryView {
    /// The string of `key`.
    pub open spec fn get(self, key: Seq<char>) -> Option<Seq<char>> {
        entry_value(self.entries, key)
    }

    /// Whether `key` has a string.
    pub open spec fn contains_key(self, key: Seq<char>) -> bool {
        entry_index(self.entries, key) is Some
    }
}

/// Where each category has the name `name`.
pub open spec fn name_flags(categories: Seq<CategoryView>, name: Seq<char>) -> Seq<bool> {
    Seq::new(categories.len(), |i: int| categories[i].name == name)
}

/// The position of the category with the name `name`.
pub open spec fn category_index(categories: Seq<CategoryView>, name: Seq<char>) -> Option<int> {
    first_true(name_flags(categories, name))
}

/// Where each category has a string for `key`.
pub open spec fn holder_flags(categories: Seq<CategoryView>, key: Seq<char>) -> Seq<bool> {
    Seq::new(categories.len(), |i: int| categories[i].contains_key(key))
}

/// Where each category is one of `names` and has a string for `key`.
pub open spec fn named_holder_flags(
    categories: Seq<CategoryView>,
    names: Seq<Seq<char>>,
    key: Seq<char>,
) -> Seq<bool> {
    Seq::new(
        categories.len(),
        |i: int| names.contains(categories[i].name) && categories[i].contains_key(key),
    )
}

/// The categories with one of the name `name` among them: a new, empty one
/// stands at the end where there was none.
pub open spec fn with_category(categories: Seq<CategoryView>, name: Seq<char>) -> Seq<
    CategoryView,
> {
    if category_index(categories, name) is Some {
        categories
    } else {
        categories.push(CategoryView { name, entries: Seq::empty() })
    }
}

/// The categories after `key` was given the string `value` in the category
/// `name`, which is made where it is missing.
pub open spec fn with_entry(
    categories: Seq<CategoryView>,
    name: Seq<char>,
    key: Seq<char>,
    value: Seq<char>,
) -> Seq<CategoryView> {
    let present = with_category(categories, name);
    match category_index(present, name) {
        Some(i) => present.update(
            i,
            CategoryView { name: present[i].name, entries: put(present[i].entries, key, value) },
        ),
        None => present,
    }
}

/// No key occurs twice among the entries.
pub open spec fn has_distinct_keys(entries: Seq<(Seq<char>, Seq<char>)>) -> bool {
    forall|i: int, j: int|
        0 <= i < j < entries.len() ==> (#[trigger] entries[i]).0 != (#[trigger] entries[j]).0
}

/// No name occurs twice among the categories, and no key occurs twice in any
/// of them.
pub open spec fn is_index(categories: Seq<CategoryView>) -> bool {
    &&& forall|i: int, j: int|
        0 <= i < j < categories.len() ==> (#[trigger] categories[i]).name
            != (#[trigger] categories[j]).name
    &&& forall|i: int|
        0 <= i < categories.len() ==> has_distinct_keys((#[trigger] categories[i]).entries)
}

/// Where no key occurs twice, each entry is the one that is found under its
/// key.
pub proof fn lemma_entry_is_found(entries: Seq<(Seq<char>, Seq<char>)>, index: int)
    requires
        has_distinct_keys(entries),
        0 <= index < entries.len(),
    ensures
        entry_index(entries, entries[index].0) == Some(index),
{
    let flags = key_flags(entries, entries[index].0);
    assert forall|j: int| 0 <= j < index implies !#[trigger] flags[j] by {
        assert(entries[j].0 != entries[index].0);
    }
    lemma_is_first_true(flags, index);
}

/// The last write wins: after a key was given a string, the key has that
/// string, and every other key has what it had.
pub proof fn last_write_law(
    entries: Seq<(Seq<char>, Seq<char>)>,
    key: Seq<char>,
    value: Seq<char>,
    other: Seq<char>,
)
    requires
        has_distinct_keys(entries),
    ensures
        has_distinct_keys(put(entries, key, value)),
        entry_value(put(entries, key, value), key) == Some(value),
        other != key ==> entry_value(put(entries, key, value), other) == entry_value(
            entries,
            other,
        ),
{
    let after = put(entries, key, value);
    lemma_first_true(key_flags(entries, key));
    let at = match entry_index(entries, key) {
        Some(at) => at,
        None => entries.len() as int,
    };
    assert(after[at] == (key, value));
    assert forall|i: int, j: int| 0 <= i < j < after.len() implies (#[trigger] after[i]).0 != (
    #[trigger] after[j]).0 by {
        if entry_index(entries, key) is None {
            if j == entries.len() {
                assert(!key_flags(entries, key)[i]);
            } else {
                assert(entries[i].0 != entries[j].0);
            }
        } else {
            assert(entries[i].0 != entries[j].0);
        }
    }
    lemma_entry_is_found(after, at);
    if other != key {
        lemma_first_true(key_flags(entries, other));
        lemma_first_true(key_flags(after, other));
        match entry_index(entries, other) {
            Some(found) => {
                assert(after[found] == entries[found]);
                lemma_entry_is_found(after, found);
            },
            None => {
                if entry_index(after, other) is Some {
                    let found = entry_index(after, other).unwrap();
                    assert(key_flags(after, other)[found]);
                    if found < entries.len() {
                        assert(!key_flags(entries, other)[found]);
                    }
                }
            },
        }
    }
}

/// What one line of a locale file says.
pub enum Line {
    /// Nothing: the line is empty, a comment, or has no `=`.
    Skip,
    /// `[name]`: the lines that follow belong to the category `name`.
    Section(Seq<char>),
    /// `key=value`.
    Entry(Seq<char>, Seq<char>),
}

/// Reads one line. White space around the line does not count; a line that
/// starts with `;` or `#` is a comment.
pub open spec fn read_line(line: Seq<char>) -> Line {
    let text = trim(line);
    if text.len() == 0 || text[0] == ';' || text[0] == '#' {
        Line::Skip
    } else if text.len() >= 2 && text[0] == '[' && text.last() == ']' {
        Line::Section(text.subrange(1, text.len() - 1))
    } else {
        match find_char(text, '=') {
            Some(i) => Line::Entry(text.take(i), text.skip(i + 1)),
            None => Line::Skip,
        }
    }
}

/// The index while a file is read: the categories, and the name of the
/// category that entries go to.
pub struct Loading {
    pub categories: Seq<CategoryView>,
    pub current: Seq<char>,
}

/// The index after one more line.
pub open spec fn after_line(state: Loading, line: Seq<char>) -> Loading {
    match read_line(line) {
        Line::Skip => state,
        Line::Section(name) => Loading {
            categories: with_category(state.categories, name),
            current: name,
        },
        Line::Entry(key, value) => Loading {
            categories: with_entry(state.categories, state.current, key, value),
            current: state.current,
        },
    }
}

/// The index after the lines of `text`, which end at each `\n`.
pub open spec fn after_text(state: Loading, text: Seq<char>) -> Loading
    decreases text.len(),
{
    match find_char(text, '\n') {
        Some(i) => {
            proof {
                lemma_first_true(char_flags(text, '\n'));
            }
            after_text(after_line(state, text.take(i)), text.skip(i + 1))
        },
        None => after_line(state, text),
    }
}

/// The name of the category that entries in front of the first section of a
/// file go to.
pub open spec fn default_category() -> Seq<char> {
    "default"@
}

/// The categories after the file `text` was read into `categories`.
pub open spec fn after_file(categories: Seq<CategoryView>, text: Seq<char>) -> Seq<CategoryView> {
    after_text(Loading { categories, current: default_category() }, text).categories
}

/// The categories after each of `files` was read into `categories`, in order.
pub open spec fn after_files(categories: Seq<CategoryView>, files: Seq<Seq<char>>) -> Seq<
    CategoryView,
>
    decreases files.len(),
{
    if files.len() == 0 {
        categories
    } else {
        after_file(after_files(categories, files.drop_last()), files.last())
    }
}

/// One category of the index.
#[derive(Debug)]
pub struct Category {
    name: String,
    entries: Vec<(String, String)>,
}

impl View for Category {
    type V = CategoryView;

    closed spec fn view(&self) -> CategoryView {
        CategoryView {
            name: self.name@,
            entries: Seq::new(
                self.entries@.len(),
                |i: int| (self.entries@[i].0@, self.entries@[i].1@),
            ),
        }
    }
}

impl Category {
    #[verifier::type_invariant]
    spec fn keys_are_distinct(self) -> bool {
        has_distinct_keys(self@.entries)
    }

    fn new(name: String) -> (category: Self)
        ensures
            category@ == (CategoryView { name: name@, entries: Seq::empty() }),
    {
        let category = Self { name, entries: Vec::new() };
        assert(category@.entries =~= Seq::empty());
        category
    }

    fn position(&self, key: &str) -> (position: Option<usize>)
        ensures
            match position {
                Some(index) => index < self.entries@.len() && entry_index(self@.entries, key@)
                    == Some(index as int),
                None => entry_index(self@.entries, key@) is None,
            },
    {
        let ghost flags = key_flags(self@.entries, key@);
        let mut index: usize = 0;
        while index < self.entries.len()
            invariant
                index <= self.entries@.len(),
                flags == key_flags(self@.entries, key@),
                forall|j: int| 0 <= j < index ==> !#[trigger] flags[j],
            decreases self.entries@.len() - index,
        {
            if text_eq(self.entries[index].0.as_str(), key) {
                proof {
                    lemma_is_first_true(flags, index as int);
                }
                return Some(index);
            }
            index += 1;
        }
        proof {
            lemma_first_true(flags);
        }
        None
    }

    /// The name of the category.
    pub fn name(&self) -> (name: &str)
        ensures
            name@ == self@.name,
    {
        self.name.as_str()
    }

    /// The number of keys.
    pub fn len(&self) -> (count: usize)
        ensures
            count == self@.entries.len(),
    {
        self.entries.len()
    }

    /// Whether `key` has a string.
    pub fn contains_key(&self, key: &str) -> (found: bool)
        ensures
            found == self@.contains_key(key@),
    {
        self.position(key).is_some()
    }

    /// The string of `key`.
    pub fn get(&self, key: &str) -> (value: Option<&str>)
        ensures
            match value {
                Some(text) => self@.get(key@) == Some(text@),
                None => self@.get(key@) is None,
            },
    {
        match self.position(key) {
            Some(index) => Some(self.entries[index].1.as_str()),
            None => None,
        }
    }

    fn insert(&mut self, key: String, value: String)
        ensures
            final(self)@ == (CategoryView {
                name: old(self)@.name,
                entries: put(old(self)@.entries, key@, value@),
            }),
            has_distinct_keys(final(self)@.entries),
    {
        proof {
            use_type_invariant(&*self);
        }
        let found = self.position(key.as_str());
        let ghost before = self@.entries;
        let mut entries: Vec<(String, String)> = Vec::new();
        core::mem::swap(&mut self.entries, &mut entries);
        match found {
            Some(index) => {
                entries[index] = (key, value);
            },
            None => {
                entries.push((key, value));
            },
        }
        proof {
            let after = Seq::new(entries@.len(), |i: int| (entries@[i].0@, entries@[i].1@));
            assert(after =~= put(before, key@, value@));
            lemma_first_true(key_flags(before, key@));
            assert forall|i: int, j: int| 0 <= i < j < after.len() implies (#[trigger] after[i]).0
                != (#[trigger] after[j]).0 by {
                if found is None {
                    if j == before.len() {
                        assert(!key_flags(before, key@)[i]);
                    } else {
                        assert(before[i].0 != before[j].0);
                    }
                } else {
                    assert(before[i].0 != before[j].0);
                }
            }
        }
        self.entries = entries;
    }
}

/// The index of localised strings. Categories keep the order in which they
/// were first seen, and so do the keys of a category. Both are held in
/// vectors, so that what is found under a name is a matter of that order
/// alone; that no name and no key occurs twice is the invariant of the types.
#[derive(Debug)]
pub struct Locales {
    locales: Vec<Category>,
}

impl View for Locales {
    type V = Seq<CategoryView>;

    closed spec fn view(&self) -> Seq<CategoryView> {
        Seq::new(self.locales@.len(), |i: int| self.locales@[i]@)
    }
}

impl Default for Locales {
    fn default() -> (locales: Self)
        ensures
            locales@.len() == 0,
            is_index(locales@),
    {
        Self { locales: Vec::new() }
    }
}

impl Locales {
    #[verifier::type_invariant]
    spec fn names_are_distinct(self) -> bool {
        is_index(self@)
    }

    fn position(&self, category: &str) -> (position: Option<usize>)
        ensures
            match position {
                Some(index) => index < self.locales@.len() && category_index(self@, category@)
                    == Some(index as int),
                None => category_index(self@, category@) is None,
            },
    {
        let ghost flags = name_flags(self@, category@);
        let mut index: usize = 0;
        while index < self.locales.len()
            invariant
                index <= self.locales@.len(),
                flags == name_flags(self@, category@),
                forall|j: int| 0 <= j < index ==> !#[trigger] flags[j],
            decreases self.locales@.len() - index,
        {
            if text_eq(self.locales[index].name(), category) {
                proof {
                    lemma_is_first_true(flags, index as int);
                }
                return Some(index);
            }
            index += 1;
        }
        proof {
            lemma_first_true(flags);
        }
        None
    }

    /// Whether there is a category of the name `category`.
    pub fn contains_category(&self, category: &str) -> (found: bool)
        ensures
            is_index(self@),
            found == category_index(self@, category@) is Some,
    {
        proof {
            use_type_invariant(self);
        }
        self.position(category).is_some()
    }

    /// Whether `key` has a string in the category `category`.
    pub fn contains_key_in_category(&self, category: &str, key: &str) -> (found: bool)
        ensures
            found == match category_index(self@, category@) {
                Some(i) => self@[i].contains_key(key@),
                None => false,
            },
    {
        match self.position(category) {
            Some(index) => self.locales[index].contains_key(key),
            None => false,
        }
    }

    /// Whether `key` has a string in some category.
    pub fn contains_key(&self, key: &str) -> (found: bool)
        ensures
            found == first_true(holder_flags(self@, key@)) is Some,
    {
        self.find_category_by_key(key).is_some()
    }

    /// The category of the name `category`.
    pub fn get_category(&self, category: &str) -> (found: Option<&Category>)
        ensures
            is_index(self@),
            match category_index(self@, category@) {
                Some(i) => found matches Some(entries) && entries@ == self@[i],
                None => found is None,
            },
    {
        proof {
            use_type_invariant(self);
        }
        match self.position(category) {
            Some(index) => Some(&self.locales[index]),
            None => None,
        }
    }

    /// The name of the first category in which `key` has a string.
    pub fn find_category_by_key(&self, key: &str) -> (name: Option<&str>)
        ensures
            match first_true(holder_flags(self@, key@)) {
                Some(i) => name matches Some(text) && text@ == self@[i].name,
                None => name is None,
            },
    {
        let ghost flags = holder_flags(self@, key@);
        let mut index: usize = 0;
        while index < self.locales.len()
            invariant
                index <= self.locales@.len(),
                flags == holder_flags(self@, key@),
                forall|j: int| 0 <= j < index ==> !#[trigger] flags[j],
            decreases self.locales@.len() - index,
        {
            if self.locales[index].contains_key(key) {
                proof {
                    lemma_is_first_true(flags, index as int);
                }
                return Some(self.locales[index].name());
            }
            index += 1;
        }
        proof {
            lemma_first_true(flags);
        }
        None
    }

    /// The name of the first category in which `key` has a string, among
    /// those whose name is one of `categories`.
    pub fn find_in_categories_by_key(&self, categories: &[&str], key: &str) -> (name: Option<&str>)
        ensures
            match first_true(named_holder_flags(self@, names_of(categories@), key@)) {
                Some(i) => name matches Some(text) && text@ == self@[i].name,
                None => name is None,
            },
    {
        let ghost flags = named_holder_flags(self@, names_of(categories@), key@);
        let mut index: usize = 0;
        while index < self.locales.len()
            invariant
                index <= self.locales@.len(),
                flags == named_holder_flags(self@, names_of(categories@), key@),
                forall|j: int| 0 <= j < index ==> !#[trigger] flags[j],
            decreases self.locales@.len() - index,
        {
            let category = &self.locales[index];
            if is_one_of(category.name(), categories) && category.contains_key(key) {
                proof {
                    lemma_is_first_true(flags, index as int);
                }
                return Some(self.locales[index].name());
            }
            index += 1;
        }
        proof {
            lemma_first_true(flags);
        }
        None
    }

    /// The string of `key` in the category `category`.
    pub fn get(&self, category: &str, key: &str) -> (value: Option<&str>)
        ensures
            match category_index(self@, category@) {
                Some(i) => match value {
                    Some(text) => self@[i].get(key@) == Some(text@),
                    None => self@[i].get(key@) is None,
                },
                None => value is None,
            },
    {
        match self.position(category) {
            Some(index) => self.locales[index].get(key),
            None => None,
        }
    }

    /// Reads the texts of the locale files of one directory, in order.
    pub fn load_dir(&mut self, files: &Vec<String>)
        ensures
            final(self)@ == after_files(old(self)@, Seq::new(files@.len(), |i: int| files@[i]@)),
            is_index(final(self)@),
    {
        let ghost texts = Seq::new(files@.len(), |i: int| files@[i]@);
        let mut index: usize = 0;
        while index < files.len()
            invariant
                index <= files@.len(),
                texts == Seq::new(files@.len(), |i: int| files@[i]@),
                self@ == after_files(old(self)@, texts.take(index as int)),
            decreases files@.len() - index,
        {
            self.load(files[index].as_str());
            proof {
                assert(texts.take(index + 1).drop_last() =~= texts.take(index as int));
                assert(texts.take(index + 1).last() == files@[index as int]@);
            }
            index += 1;
        }
        assert(texts.take(index as int) =~= texts);
        proof {
            use_type_invariant(&*self);
        }
    }

    /// Reads the text of one locale file.
    pub fn load(&mut self, text: &str)
        ensures
            final(self)@ == after_file(old(self)@, text@),
            is_index(final(self)@),
    {
        let chars = chars_of(text);
        let mut current = String::from_str("default");
        let ghost start = Loading { categories: self@, current: default_category() };
        let mut from: usize = 0;
        assert(chars@.skip(0) =~= text@);
        loop
            invariant_except_break
                from <= chars@.len(),
                chars@ == text@,
                start == (Loading { categories: old(self)@, current: default_category() }),
                after_text(start, text@) == after_text(
                    Loading { categories: self@, current: current@ },
                    chars@.skip(from as int),
                ),
            ensures
                self@ == after_text(start, text@).categories,
            decreases chars@.len() - from,
        {
            let ghost rest = chars@.skip(from as int);
            let ghost state = Loading { categories: self@, current: current@ };
            assert(rest =~= chars@.subrange(from as int, chars@.len() as int));
            match find_in_range(&chars, from, chars.len(), '\n') {
                Some(end) => {
                    self.load_line(&chars, from, end, &mut current);
                    proof {
                        assert(rest.take(end - from) =~= chars@.subrange(from as int, end as int));
                        assert(rest.skip(end - from + 1) =~= chars@.skip(end + 1));
                    }
                    from = end + 1;
                },
                None => {
                    self.load_line(&chars, from, chars.len(), &mut current);
                    break ;
                },
            }
        }
        proof {
            use_type_invariant(&*self);
        }
    }

    /// Takes in the line that the characters from `from` up to `to` hold.
    fn load_line(&mut self, chars: &Vec<char>, from: usize, to: usize, current: &mut String)
        requires
            from <= to <= chars@.len(),
        ensures
            (Loading { categories: final(self)@, current: final(current)@ }) == after_line(
                Loading { categories: old(self)@, current: old(current)@ },
                chars@.subrange(from as int, to as int),
            ),
    {
        let (start, end) = trim_range(chars, from, to);
        let ghost text = chars@.subrange(start as int, end as int);
        if start == end || chars[start] == ';' || chars[start] == '#' {
            return ;
        }
        if end - start >= 2 && chars[start] == '[' && chars[end - 1] == ']' {
            let name = string_of(slice_subrange(chars.as_slice(), start + 1, end - 1));
            assert(name@ =~= text.subrange(1, text.len() - 1));
            self.add_category(name.as_str());
            *current = name;
            return ;
        }
        match find_in_range(chars, start, end, '=') {
            Some(middle) => {
                let key = string_of(slice_subrange(chars.as_slice(), start, middle));
                let value = string_of(slice_subrange(chars.as_slice(), middle + 1, end));
                assert(key@ =~= text.take(middle - start));
                assert(value@ =~= text.skip(middle - start + 1));
                self.add_entry(current.as_str(), key, value);
            },
            None => {},
        }
    }

    /// Makes the category `name` where it is missing.
    fn add_category(&mut self, name: &str) -> (index: usize)
        ensures
            final(self)@ == with_category(old(self)@, name@),
            category_index(final(self)@, name@) == Some(index as int),
            index < final(self)@.len(),
    {
        proof {
            use_type_invariant(&*self);
        }
        match self.position(name) {
            Some(index) => index,
            None => {
                let ghost before = self@;
                let mut categories: Vec<Category> = Vec::new();
                core::mem::swap(&mut self.locales, &mut categories);
                let index = categories.len();
                categories.push(Category::new(String::from_str(name)));
                proof {
                    let after = Seq::new(categories@.len(), |i: int| categories@[i]@);
                    assert(after =~= with_category(before, name@));
                    let flags = name_flags(after, name@);
                    lemma_first_true(name_flags(before, name@));
                    assert forall|j: int| 0 <= j < index implies !#[trigger] flags[j] by {
                        assert(!name_flags(before, name@)[j]);
                    }
                    lemma_is_first_true(flags, index as int);
                    assert forall|i: int, j: int| 0 <= i < j < after.len() implies (
                    #[trigger] after[i]).name != (#[trigger] after[j]).name by {
                        if j == index {
                            assert(!name_flags(before, name@)[i]);
                        } else {
                            assert(before[i].name != before[j].name);
                        }
                    }
                    assert forall|i: int| 0 <= i < after.len() implies has_distinct_keys(
                        (#[trigger] after[i]).entries,
                    ) by {
                        if i < index {
                            assert(after[i] == before[i]);
                        }
                    }
                }
                self.locales = categories;
                index
            },
        }
    }

    /// Gives `key` the string `value` in the category `name`.
    fn add_entry(&mut self, name: &str, key: String, value: String)
        ensures
            final(self)@ == with_entry(old(self)@, name@, key@, value@),
    {
        let index = self.add_category(name);
        proof {
            use_type_invariant(&*self);
        }
        let ghost present = self@;
        let mut categories: Vec<Category> = Vec::new();
        core::mem::swap(&mut self.locales, &mut categories);
        categories[index].insert(key, value);
        proof {
            let after = Seq::new(categories@.len(), |i: int| categories@[i]@);
            assert(after =~= present.update(
                index as int,
                CategoryView {
                    name: present[index as int].name,
                    entries: put(present[index as int].entries, key@, value@),
                },
            ));
            assert forall|i: int, j: int| 0 <= i < j < after.len() implies (
            #[trigger] after[i]).name != (#[trigger] after[j]).name by {
                assert(present[i].name != present[j].name);
            }
            assert forall|i: int| 0 <= i < after.len() implies has_distinct_keys(
                (#[trigger] after[i]).entries,
            ) by {
                if i != index {
                    assert(after[i] == present[i]);
                }
            }
        }
        self.locales = categories;
    }
}

} // verus!
