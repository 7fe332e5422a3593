//! A staff directory kept by department, and the commands that drive it.

use crate::text::{
    chars_in, classify_str, copy_strings, glyph_views, glyphs_of, in_order, join, joined,
    lowercase_of, same_text, sort_strings, spell, split_words, string_views, words, Glyph,
};
use vstd::prelude::*;

verus! {

/// A command of the directory's prompt.
#[derive(Debug, PartialEq)]
pub enum Command {
    /// Add `name` to `department`.
    AddEmployee { name: String, department: String },
    /// List the people of `department`.
    ListDepartment { department: String },
    /// List everybody, department by department.
    ListAll,
    /// Remove `name` from `department`.
    RemoveEmployee { name: String, department: String },
    /// Show the help text.
    Help,
    /// Leave.
    Quit,
}

/// A command as a mathematical value.
pub enum CommandView {
    AddEmployee { name: Seq<char>, department: Seq<char> },
    ListDepartment { department: Seq<char> },
    ListAll,
    RemoveEmployee { name: Seq<char>, department: Seq<char> },
    Help,
    Quit,
}

impl View for Command {
    type V = CommandView;

    open spec fn view(&self) -> CommandView {
        match self {
            Command::AddEmployee { name, department } => CommandView::AddEmployee {
                name: name@,
                department: department@,
            },
            Command::ListDepartment { department } => CommandView::ListDepartment {
                department: department@,
            },
            Command::ListAll => CommandView::ListAll,
            Command::RemoveEmployee { name, department } => CommandView::RemoveEmployee {
                name: name@,
                department: department@,
            },
            Command::Help => CommandView::Help,
            Command::Quit => CommandView::Quit,
        }
    }
}

/// The view of an optional command.
pub open spec fn command_view(command: Option<Command>) -> Option<CommandView> {
    match command {
        Some(command) => Some(command@),
        None => None,
    }
}

/// The index of the first word equal to `key`, or the number of words if
/// there is none.
pub open spec fn position(words: Seq<Seq<char>>, key: Seq<char>) -> nat
    decreases words.len(),
{
    if words.len() == 0 || words[0] == key {
        0
    } else {
        1 + position(words.drop_first(), key)
    }
}

/// The name and the department of a command of the form
/// `verb name.. link department..`, where `at` is the index of the first
/// word that reads as the link.  Both the name and the department need at
/// least one word.
pub open spec fn name_and_department(words: Seq<Seq<char>>, at: int) -> Option<
    (Seq<char>, Seq<char>),
> {
    if 1 < at < words.len() - 1 {
        Some((joined(words.subrange(1, at)), joined(words.subrange(at + 1, words.len() as int))))
    } else {
        None
    }
}

/// The command that a line of words stands for, if any.
///
/// `lowered[i]` is the lowercase form of `words[i]`; keywords are compared
/// in lowercase, names and departments are taken as written.
///
/// - `add name.. to department..`
/// - `remove name.. from department..`
/// - `list all`, `show all`
/// - `list department..`, `show department..`
/// - `help`; `quit`, `exit`: whatever follows them is ignored.
pub open spec fn command_of(words: Seq<Seq<char>>, lowered: Seq<Seq<char>>) -> Option<
    CommandView,
>
    recommends
        words.len() == lowered.len(),
{
    if words.len() == 0 || lowered.len() != words.len() {
        None
    } else if lowered[0] == "add"@ {
        match name_and_department(words, position(lowered, "to"@) as int) {
            Some((name, department)) => Some(CommandView::AddEmployee { name, department }),
            None => None,
        }
    } else if lowered[0] == "list"@ || lowered[0] == "show"@ {
        if words.len() < 2 {
            None
        } else if lowered[1] == "all"@ {
            Some(CommandView::ListAll)
        } else {
            Some(
                CommandView::ListDepartment {
                    department: joined(words.subrange(1, words.len() as int)),
                },
            )
        }
    } else if lowered[0] == "remove"@ {
        match name_and_department(words, position(lowered, "from"@) as int) {
            Some((name, department)) => Some(CommandView::RemoveEmployee { name, department }),
            None => None,
        }
    } else if lowered[0] == "help"@ {
        Some(CommandView::Help)
    } else if lowered[0] == "quit"@ || lowered[0] == "exit"@ {
        Some(CommandView::Quit)
    } else {
        None
    }
}

/// Finds the first word equal to `key`: its index, or the number of words
/// if there is none.
pub fn find_word(words: &Vec<String>, key: &str) -> (at: usize)
    ensures
        at == position(string_views(words@), key@),
        at <= words@.len(),
{
    let ghost all = string_views(words@);
    let mut i: usize = 0;
    proof {
        assert(all.skip(0) =~= all);
    }
    while i < words.len()
        invariant
            i <= words@.len(),
            all == string_views(words@),
            i + position(all.skip(i as int), key@) == position(all, key@),
        decreases words@.len() - i,
    {
        proof {
            assert(all.skip(i as int)[0] == words@[i as int]@);
            assert(all.skip(i as int).drop_first() =~= all.skip(i + 1));
        }
        if same_text(&words[i], key) {
            return i;
        }
        i += 1;
    }
    i
}

/// Reads the name and the department around the link word at index `at`.
fn read_name_and_department(words: &Vec<String>, at: usize) -> (r: Option<(String, String)>)
    requires
        at <= words@.len(),
    ensures
        match r {
            Some((name, department)) => name_and_department(string_views(words@), at as int)
                == Some((name@, department@)),
            None => name_and_department(string_views(words@), at as int) is None,
        },
{
    if at > 1 && at < words.len() - 1 {
        let name = join(words, 1, at);
        let department = join(words, at + 1, words.len());
        Some((name, department))
    } else {
        None
    }
}

/// Interprets a line that has been split into `words`, where `lowered[i]`
/// is the lowercase form of `words[i]`.
pub fn interpret(words: &Vec<String>, lowered: &Vec<String>) -> (command: Option<Command>)
    ensures
        command_view(command) == command_of(string_views(words@), string_views(lowered@)),
{
    if words.len() == 0 || lowered.len() != words.len() {
        return None;
    }
    let verb = &lowered[0];
    proof {
        assert(string_views(lowered@)[0] == verb@);
    }
    if same_text(verb, "add") {
        let at = find_word(lowered, "to");
        match read_name_and_department(words, at) {
            Some((name, department)) => Some(Command::AddEmployee { name, department }),
            None => None,
        }
    } else if same_text(verb, "list") || same_text(verb, "show") {
        if words.len() < 2 {
            None
        } else {
            proof {
                assert(string_views(lowered@)[1] == lowered@[1]@);
            }
            if same_text(&lowered[1], "all") {
                Some(Command::ListAll)
            } else {
                Some(Command::ListDepartment { department: join(words, 1, words.len()) })
            }
        }
    } else if same_text(verb, "remove") {
        let at = find_word(lowered, "from");
        match read_name_and_department(words, at) {
            Some((name, department)) => Some(Command::RemoveEmployee { name, department }),
            None => None,
        }
    } else if same_text(verb, "help") {
        Some(Command::Help)
    } else if same_text(verb, "quit") || same_text(verb, "exit") {
        Some(Command::Quit)
    } else {
        None
    }
}

/// The words of a line, as they were written.
pub open spec fn words_written(input: Seq<char>) -> Seq<Seq<char>> {
    words(glyphs_of(input)).map_values(|word: Seq<Glyph>| chars_in(word))
}

/// The words of a line, in lowercase.
pub open spec fn words_lowered(input: Seq<char>) -> Seq<Seq<char>> {
    words_written(input).map_values(|word: Seq<char>| lowercase_of(word))
}

/// Reads one line of the prompt.
///
/// The line is split at white space; keywords are recognised in any letter
/// case.  `None` is returned for an empty line and for a line that is no
/// command.
pub fn parse_command(input: &str) -> (command: Option<Command>)
    ensures
        command_view(command) == command_of(words_written(input@), words_lowered(input@)),
{
    let glyphs = classify_str(input);
    let pieces = split_words(&glyphs);
    let mut written: Vec<String> = Vec::new();
    let mut lowered: Vec<String> = Vec::new();
    let mut i: usize = 0;
    while i < pieces.len()
        invariant
            i <= pieces@.len(),
            glyph_views(pieces@) == words(glyphs_of(input@)),
            written@.len() == i,
            lowered@.len() == i,
            forall|j: int| 0 <= j < i ==> (#[trigger] written@[j])@ == chars_in(pieces@[j]@),
            forall|j: int|
                0 <= j < i ==> (#[trigger] lowered@[j])@ == lowercase_of(chars_in(pieces@[j]@)),
        decreases pieces@.len() - i,
    {
        let word = spell(&pieces[i]);
        lowered.push(word.as_str().to_lowercase());
        written.push(word);
        i += 1;
    }
    proof {
        assert forall|j: int| 0 <= j < pieces@.len() implies glyph_views(pieces@)[j]
            == #[trigger] pieces@[j]@ by {}
        assert(string_views(written@) =~= words_written(input@));
        assert(string_views(lowered@) =~= words_lowered(input@));
    }
    interpret(&written, &lowered)
}

/// A department with its people.
#[derive(Debug)]
pub struct Department {
    /// The department's name.
    pub name: String,
    /// The people of the department.
    pub employees: Vec<String>,
}

/// The names of `departments`, in their order.
pub open spec fn names_of(departments: Seq<Department>) -> Seq<Seq<char>> {
    departments.map_values(|department: Department| department.name@)
}

/// The people of the `i`-th of `departments`.
pub open spec fn staff_of(departments: Seq<Department>, i: int) -> Seq<Seq<char>> {
    string_views(departments[i].employees@)
}

/// The directory that a list of departments stands for: each name with the
/// people of the department of that name.
pub open spec fn directory_of(departments: Seq<Department>) -> Map<Seq<char>, Seq<Seq<char>>> {
    Map::new(
        |name: Seq<char>| names_of(departments).contains(name),
        |name: Seq<char>| staff_of(departments, names_of(departments).index_of(name)),
    )
}

/// Whether `sorted` holds the strings of `list`, each as often as `list`
/// does, in the order of strings.
pub open spec fn sorted_form(sorted: Seq<Seq<char>>, list: Seq<Seq<char>>) -> bool {
    in_order(sorted) && sorted.to_multiset() == list.to_multiset()
}

/// What holds of the people of a department: there is somebody, and nobody
/// is listed twice.
pub open spec fn listed(staff: Seq<Seq<char>>) -> bool {
    staff.len() > 0 && staff.no_duplicates()
}

/// What holds of every directory: it has finitely many departments, none of
/// them is empty, and nobody is listed twice in a department.
pub open spec fn valid(directory: Map<Seq<char>, Seq<Seq<char>>>) -> bool {
    &&& directory.dom().finite()
    &&& forall|name: Seq<char>| #[trigger] directory.contains_key(name) ==> listed(directory[name])
}

/// Where names are distinct, the directory gives each department's people
/// under the department's name.
pub proof fn lemma_directory_lookup(departments: Seq<Department>, i: int)
    requires
        names_of(departments).no_duplicates(),
        0 <= i < departments.len(),
    ensures
        directory_of(departments).contains_key(departments[i].name@),
        directory_of(departments)[departments[i].name@] == staff_of(departments, i),
{
    let names = names_of(departments);
    assert(names[i] == departments[i].name@);
    let j = names.index_of(names[i]);
    assert(names[j] == names[i]);
}

/// The staff directory: departments by name, each with its people in the
/// order in which they were added.
pub struct EmployeeManager {
    departments: Vec<Department>,
}

impl View for EmployeeManager {
    type V = Map<Seq<char>, Seq<Seq<char>>>;

    closed spec fn view(&self) -> Map<Seq<char>, Seq<Seq<char>>> {
        directory_of(self.departments@)
    }
}

impl EmployeeManager {
    /// Whether the manager's data are consistent: no two departments share
    /// a name, no department is empty, nobody is listed twice in one.
    pub closed spec fn wf(&self) -> bool {
        &&& names_of(self.departments@).no_duplicates()
        &&& forall|i: int|
            0 <= i < self.departments@.len() ==> listed(#[trigger] staff_of(self.departments@, i))
    }

    /// The directory of a consistent manager is valid.
    pub proof fn lemma_wf_gives_valid(&self)
        requires
            self.wf(),
        ensures
            valid(self@),
    {
        let departments = self.departments@;
        let names = names_of(departments);
        assert(self@.dom() =~= names.to_set());
        vstd::seq_lib::seq_to_set_is_finite(names);
        assert forall|name: Seq<char>| #[trigger] self@.contains_key(name) implies listed(
            self@[name],
        ) by {
            let i = names.index_of(name);
            assert(names[i] == name);
            lemma_directory_lookup(departments, i);
            assert(listed(staff_of(departments, i)));
        }
    }

    /// Creates an empty directory.
    pub fn new() -> (manager: Self)
        ensures
            manager.wf(),
            manager@ == Map::<Seq<char>, Seq<Seq<char>>>::empty(),
    {
        let manager = EmployeeManager { departments: Vec::new() };
        assert(manager@ =~= Map::<Seq<char>, Seq<Seq<char>>>::empty());
        manager
    }

    /// Finds the department called `department`.
    fn find_department(&self, department: &str) -> (found: Option<usize>)
        ensures
            match found {
                Some(i) => i < self.departments@.len() && self.departments@[i as int].name@
                    == department@,
                None => !names_of(self.departments@).contains(department@),
            },
    {
        let mut i: usize = 0;
        while i < self.departments.len()
            invariant
                i <= self.departments@.len(),
                forall|j: int| 0 <= j < i ==> (#[trigger] self.departments@[j]).name@ != department@,
            decreases self.departments@.len() - i,
        {
            if same_text(&self.departments[i].name, department) {
                return Some(i);
            }
            i += 1;
        }
        proof {
            let names = names_of(self.departments@);
            if names.contains(department@) {
                let j = choose|j: int| 0 <= j < names.len() && names[j] == department@;
                assert(self.departments@[j].name@ == department@);
            }
        }
        None
    }

    /// Adds `name` to `department` and reports whether it did.
    ///
    /// A department that does not exist yet is created.  Somebody who is
    /// already listed in the department is not added again.
    pub fn add_employee(&mut self, name: String, department: String) -> (added: bool)
        requires
            old(self).wf(),
        ensures
            final(self).wf(),
            added == !(old(self)@.contains_key(department@) && old(self)@[department@].contains(
                name@,
            )),
            added && old(self)@.contains_key(department@) ==> final(self)@ == old(self)@.insert(
                department@,
                old(self)@[department@].push(name@),
            ),
            added && !old(self)@.contains_key(department@) ==> final(self)@ == old(self)@.insert(
                department@,
                seq![name@],
            ),
            !added ==> final(self)@ == old(self)@,
    {
        let ghost before = self.departments@;
        match self.find_department(department.as_str()) {
            Some(i) => {
                proof {
                    lemma_directory_lookup(before, i as int);
                    lemma_position(staff_of(before, i as int), name@);
                }
                let at = find_word(&self.departments[i].employees, name.as_str());
                if at < self.departments[i].employees.len() {
                    false
                } else {
                    self.departments[i].employees.push(name);
                    proof {
                        let after = self.departments@;
                        let grown = staff_of(before, i as int).push(name@);
                        assert(names_of(after) =~= names_of(before));
                        assert(staff_of(after, i as int) =~= grown);
                        assert(grown.no_duplicates()) by {
                            assert(listed(staff_of(before, i as int)));
                            assert(!staff_of(before, i as int).contains(name@));
                            assert forall|a: int, b: int|
                                0 <= a < grown.len() && 0 <= b < grown.len() && a != b implies grown[a]
                                != grown[b] by {
                                if a < grown.len() - 1 {
                                    assert(staff_of(before, i as int)[a] == grown[a]);
                                }
                                if b < grown.len() - 1 {
                                    assert(staff_of(before, i as int)[b] == grown[b]);
                                }
                            }
                        }
                        assert forall|j: int| 0 <= j < after.len() implies listed(
                            #[trigger] staff_of(after, j),
                        ) by {
                            if j != i {
                                assert(after[j] == before[j]);
                                assert(listed(staff_of(before, j)));
                            }
                        }
                        assert(self@ =~= old(self)@.insert(department@, grown)) by {
                            assert forall|key: Seq<char>| self@.contains_key(key) implies self@[key]
                                == old(self)@.insert(department@, grown)[key] by {
                                let j = names_of(after).index_of(key);
                                assert(names_of(after)[j] == key);
                                assert(after[j].name@ == key);
                                assert(before[j].name@ == key);
                                lemma_directory_lookup(after, j);
                                lemma_directory_lookup(before, j);
                                if j != i {
                                    assert(after[j] == before[j]);
                                    assert(staff_of(after, j) == staff_of(before, j));
                                    assert(names_of(before)[j] != names_of(before)[i as int]);
                                } else {
                                    assert(key == department@);
                                }
                            }
                        }
                    }
                    true
                }
            },
            None => {
                let mut employees: Vec<String> = Vec::new();
                employees.push(name);
                self.departments.push(Department { name: department, employees });
                proof {
                    let after = self.departments@;
                    let last = before.len() as int;
                    assert(names_of(after) =~= names_of(before).push(department@));
                    assert(staff_of(after, last) =~= seq![name@]);
                    assert forall|j: int| 0 <= j < after.len() implies listed(
                        #[trigger] staff_of(after, j),
                    ) by {
                        if j != last {
                            assert(after[j] == before[j]);
                            assert(listed(staff_of(before, j)));
                        }
                    }
                    assert(self@ =~= old(self)@.insert(department@, seq![name@])) by {
                        assert forall|key: Seq<char>| self@.contains_key(key) implies self@[key]
                            == old(self)@.insert(department@, seq![name@])[key] by {
                            let j = names_of(after).index_of(key);
                            assert(names_of(after)[j] == key);
                            lemma_directory_lookup(after, j);
                            if j != last {
                                lemma_directory_lookup(before, j);
                                assert(staff_of(after, j) == staff_of(before, j));
                            }
                        }
                        assert forall|key: Seq<char>|
                            old(self)@.insert(department@, seq![name@]).contains_key(
                                key,
                            ) implies self@.contains_key(key) by {
                            if key != department@ {
                                let j = names_of(before).index_of(key);
                                assert(names_of(after)[j] == key);
                            } else {
                                assert(names_of(after)[last] == key);
                            }
                        }
                    }
                }
                true
            },
        }
    }

    /// Removes `name` from `department` and reports whether it did: whether
    /// there was such a department with such a person.
    ///
    /// A department that loses its last person is removed.
    pub fn remove_employee(&mut self, name: &str, department: &str) -> (removed: bool)
        requires
            old(self).wf(),
        ensures
            final(self).wf(),
            removed == (old(self)@.contains_key(department@) && old(self)@[department@].contains(
                name@,
            )),
            !removed ==> final(self)@ == old(self)@,
            removed ==> final(self)@ == ({
                let staff = old(self)@[department@];
                let rest = staff.remove(position(staff, name@) as int);
                if rest.len() == 0 {
                    old(self)@.remove(department@)
                } else {
                    old(self)@.insert(department@, rest)
                }
            }),
    {
        let ghost before = self.departments@;
        match self.find_department(department) {
            Some(i) => {
                proof {
                    lemma_directory_lookup(before, i as int);
                    lemma_position(staff_of(before, i as int), name@);
                }
                let at = find_word(&self.departments[i].employees, name);
                if at < self.departments[i].employees.len() {
                    let ghost staff = staff_of(before, i as int);
                    let ghost rest = staff.remove(at as int);
                    self.departments[i].employees.remove(at);
                    proof {
                        let between = self.departments@;
                        assert(names_of(between) =~= names_of(before));
                        assert(staff_of(between, i as int) =~= rest);
                        assert(listed(staff));
                        assert(rest.no_duplicates()) by {
                            assert forall|a: int, b: int|
                                0 <= a < rest.len() && 0 <= b < rest.len() && a != b implies rest[a]
                                != rest[b] by {
                                let a0 = if a < at { a } else { a + 1 };
                                let b0 = if b < at { b } else { b + 1 };
                                assert(rest[a] == staff[a0]);
                                assert(rest[b] == staff[b0]);
                            }
                        }
                    }
                    if self.departments[i].employees.len() == 0 {
                        self.departments.remove(i);
                        proof {
                            let after = self.departments@;
                            assert(names_of(after) =~= names_of(before).remove(i as int));
                            assert(names_of(after).no_duplicates()) by {
                                assert forall|a: int, b: int|
                                    0 <= a < after.len() && 0 <= b < after.len() && a
                                        != b implies names_of(after)[a] != names_of(after)[b] by {
                                    let a0 = if a < i { a } else { a + 1 };
                                    let b0 = if b < i { b } else { b + 1 };
                                    assert(names_of(after)[a] == names_of(before)[a0]);
                                    assert(names_of(after)[b] == names_of(before)[b0]);
                                }
                            }
                            assert forall|j: int| 0 <= j < after.len() implies listed(
                                #[trigger] staff_of(after, j),
                            ) by {
                                let j0 = if j < i { j } else { j + 1 };
                                assert(after[j] == before[j0]);
                                assert(listed(staff_of(before, j0)));
                            }
                            let target = old(self)@.remove(department@);
                            assert(self@ =~= target) by {
                                assert forall|key: Seq<char>| #[trigger]
                                    self@.contains_key(key) implies target.contains_key(key)
                                    && self@[key] == target[key] by {
                                    let j = names_of(after).index_of(key);
                                    assert(names_of(after)[j] == key);
                                    let j0 = if j < i { j } else { j + 1 };
                                    assert(after[j] == before[j0]);
                                    assert(names_of(before)[j0] == key);
                                    assert(names_of(before)[j0] != names_of(before)[i as int]);
                                    lemma_directory_lookup(after, j);
                                    lemma_directory_lookup(before, j0);
                                }
                                assert forall|key: Seq<char>| #[trigger]
                                    target.contains_key(key) implies self@.contains_key(key) by {
                                    let j0 = names_of(before).index_of(key);
                                    assert(names_of(before)[j0] == key);
                                    assert(j0 != i);
                                    let j = if j0 < i { j0 } else { j0 - 1 };
                                    assert(names_of(after)[j] == key);
                                }
                                assert(self@.dom() =~= target.dom());
                            }
                        }
                    } else {
                        proof {
                            let after = self.departments@;
                            assert forall|j: int| 0 <= j < after.len() implies listed(
                                #[trigger] staff_of(after, j),
                            ) by {
                                if j != i {
                                    assert(after[j] == before[j]);
                                    assert(listed(staff_of(before, j)));
                                }
                            }
                            assert(self@ =~= old(self)@.insert(department@, rest)) by {
                                assert forall|key: Seq<char>| self@.contains_key(key) implies self@[key]
                                    == old(self)@.insert(department@, rest)[key] by {
                                    let j = names_of(after).index_of(key);
                                    assert(names_of(after)[j] == key);
                                    assert(before[j].name@ == key);
                                    lemma_directory_lookup(after, j);
                                    lemma_directory_lookup(before, j);
                                    if j != i {
                                        assert(after[j] == before[j]);
                                        assert(names_of(before)[j] != names_of(before)[i as int]);
                                    }
                                }
                            }
                        }
                    }
                    true
                } else {
                    false
                }
            },
            None => false,
        }
    }

    /// Returns the people of `department` in the order of strings, or
    /// `None` if there is no such department.
    pub fn get_department_employees(&self, department: &str) -> (list: Option<Vec<String>>)
        requires
            self.wf(),
        ensures
            match list {
                Some(people) => self@.contains_key(department@) && sorted_form(
                    string_views(people@),
                    self@[department@],
                ),
                None => !self@.contains_key(department@),
            },
    {
        match self.find_department(department) {
            Some(i) => {
                proof {
                    lemma_directory_lookup(self.departments@, i as int);
                }
                let mut sorted_employees = copy_strings(&self.departments[i].employees);
                sort_strings(&mut sorted_employees);
                Some(sorted_employees)
            },
            None => None,
        }
    }

    /// Returns the names of the departments in the order of strings, each
    /// once.
    pub fn get_departments(&self) -> (names: Vec<String>)
        requires
            self.wf(),
        ensures
            in_order(string_views(names@)),
            string_views(names@).no_duplicates(),
            string_views(names@).to_set() == self@.dom(),
    {
        let mut names: Vec<String> = Vec::new();
        let mut i: usize = 0;
        while i < self.departments.len()
            invariant
                i <= self.departments@.len(),
                names@.len() == i,
                forall|j: int| 0 <= j < i ==> (#[trigger] names@[j])@ == self.departments@[j].name@,
            decreases self.departments@.len() - i,
        {
            names.push(self.departments[i].name.clone());
            i += 1;
        }
        let ghost unsorted = string_views(names@);
        proof {
            assert(unsorted =~= names_of(self.departments@));
        }
        sort_strings(&mut names);
        proof {
            let sorted = string_views(names@);
            unsorted.lemma_multiset_has_no_duplicates();
            sorted.lemma_multiset_has_no_duplicates_conv();
            unsorted.to_multiset_ensures();
            sorted.to_multiset_ensures();
            assert(sorted.to_set() =~= self@.dom()) by {
                assert forall|name: Seq<char>| sorted.to_set().contains(name)
                    <==> self@.dom().contains(name) by {
                    assert(sorted.to_multiset().count(name) == unsorted.to_multiset().count(name));
                    assert(sorted.contains(name) <==> sorted.to_multiset().count(name) > 0);
                    assert(unsorted.contains(name) <==> unsorted.to_multiset().count(name) > 0);
                }
            }
        }
        names
    }

    /// Returns every department with its people: the departments in the
    /// order of their names, the people of each in the order of strings.
    pub fn get_all_employees(&self) -> (all: Vec<Department>)
        requires
            self.wf(),
        ensures
            in_order(names_of(all@)),
            names_of(all@).no_duplicates(),
            names_of(all@).to_set() == self@.dom(),
            forall|i: int|
                0 <= i < all@.len() ==> sorted_form(
                    #[trigger] staff_of(all@, i),
                    self@[all@[i].name@],
                ),
    {
        let departments = self.get_departments();
        let mut all: Vec<Department> = Vec::new();
        let mut i: usize = 0;
        while i < departments.len()
            invariant
                self.wf(),
                i <= departments@.len(),
                string_views(departments@).to_set() == self@.dom(),
                all@.len() == i,
                forall|j: int| 0 <= j < i ==> (#[trigger] all@[j]).name@ == departments@[j]@,
                forall|j: int|
                    0 <= j < i ==> sorted_form(#[trigger] staff_of(all@, j), self@[all@[j].name@]),
            decreases departments@.len() - i,
        {
            let ghost before = all@;
            proof {
                assert(string_views(departments@)[i as int] == departments@[i as int]@);
                assert(string_views(departments@).to_set().contains(departments@[i as int]@));
            }
            match self.get_department_employees(departments[i].as_str()) {
                Some(sorted_employees) => {
                    all.push(Department { name: departments[i].clone(), employees: sorted_employees });
                },
                None => {},
            }
            proof {
                assert forall|j: int| 0 <= j < i + 1 implies sorted_form(
                    #[trigger] staff_of(all@, j),
                    self@[all@[j].name@],
                ) by {
                    if j < i {
                        assert(all@[j] == before[j]);
                        assert(staff_of(all@, j) == staff_of(before, j));
                    }
                }
            }
            i += 1;
        }
        proof {
            assert(names_of(all@) =~= string_views(departments@));
        }
        all
    }
}

/// A string is among `words` exactly if its position is an index of
/// `words`, and then it stands at that position and nowhere before it.
pub proof fn lemma_position(words: Seq<Seq<char>>, key: Seq<char>)
    ensures
        position(words, key) <= words.len(),
        position(words, key) < words.len() <==> words.contains(key),
        position(words, key) < words.len() ==> words[position(words, key) as int] == key,
        forall|j: int| 0 <= j < position(words, key) ==> words[j] != key,
    decreases words.len(),
{
    if words.len() > 0 && words[0] != key {
        let rest = words.drop_first();
        lemma_position(rest, key);
        if rest.contains(key) {
            let j = choose|j: int| 0 <= j < rest.len() && rest[j] == key;
            assert(words[j + 1] == key);
        }
        if words.contains(key) {
            let j = choose|j: int| 0 <= j < words.len() && words[j] == key;
            assert(rest[j - 1] == key);
        }
        assert forall|j: int| 0 <= j < position(words, key) implies words[j] != key by {
            if j > 0 {
                assert(rest[j - 1] != key);
            }
        }
    } else if words.len() > 0 {
        assert(words[0] == key);
    }
}

} // verus!
