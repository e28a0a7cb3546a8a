//! The whitelist: programs whose commands the panel and the tray icon leave out.
//!
//! It only affects what is shown; the daemon still broadcasts every event.
//! Entries are program names (see `program_name`), kept sorted after each
//! addition and written back to the whitelist file after each change.
use vstd::prelude::*;

use crate::json::{json_pretty_string_array, json_string_array, parse_string_array, to_pretty_string_array};
use crate::text::{is_ws, joined, law_program_name_idempotent, law_trim_keeps_program_name, lemma_plain_word_is_own_name, law_sorted_permutation_is_unique, lex_le, names, opt_text, program_name, same_text, sort_names, sorted_lex, spec_program_name, spec_trim, trim};

verus! {

/// The message for an entry that is empty once normalized.
pub open spec fn empty_entry_message() -> Seq<char> {
    "白名单项不能为空"@
}

/// The prefix of the message for a whitelist that could not be serialized.
pub open spec fn serialize_failed_prefix() -> Seq<char> {
    "序列化白名单失败："@
}

/// The entries read from the whitelist file's contents (`None` where the file
/// could not be read): a JSON array of strings, or no entries at all.
pub open spec fn loaded_entries(raw: Option<Seq<char>>) -> Seq<Seq<char>> {
    match raw {
        Some(text) => match json_string_array(text) {
            Some(list) => list,
            None => Seq::empty(),
        },
        None => Seq::empty(),
    }
}

/// The entry that `add` stores for the user's input: the program name of the
/// trimmed input.
pub open spec fn normalize_entry(input: Seq<char>) -> Seq<char> {
    spec_program_name(spec_trim(input))
}

/// Whether `entries` hides `command`: some entry has the same program name.
pub open spec fn hides_spec(entries: Seq<Seq<char>>, command: Seq<char>) -> bool {
    exists|i: int|
        0 <= i < entries.len() && #[trigger] spec_program_name(entries[i]) == spec_program_name(
            command,
        )
}

/// `new` is the list after adding the (normalized, non-empty) entry `entry` to
/// `old`: unchanged where `old` holds it already, else `old` with `entry` added,
/// sorted.
pub open spec fn added(old: Seq<Seq<char>>, entry: Seq<char>, new: Seq<Seq<char>>) -> bool {
    if old.contains(entry) {
        new == old
    } else {
        sorted_lex(new) && new.to_multiset() == old.push(entry).to_multiset()
    }
}

/// The test that keeps the entries other than `entry`.
pub open spec fn other_than(entry: Seq<char>) -> spec_fn(Seq<char>) -> bool {
    |e: Seq<char>| e != entry
}

/// `entries` without every entry equal to `entry`, in the same order.
pub open spec fn without(entries: Seq<Seq<char>>, entry: Seq<char>) -> Seq<Seq<char>> {
    entries.filter(other_than(entry))
}

/// What the whitelist file should now hold, and the list to answer with once
/// it has been written.
pub struct PersistRequest {
    /// The whitelist file.
    pub path: String,
    /// Its new contents: the entries as pretty-printed JSON.
    pub contents: String,
    /// The entries, in order.
    pub entries: Vec<String>,
}

/// The outcome of a successful `add`.
pub enum Edit {
    /// The entry was there already; nothing needs writing. Holds the entries.
    Unchanged(Vec<String>),
    /// The entry was added; the file must be written.
    Changed(PersistRequest),
}

/// `req` asks to save the entries `entries` of a whitelist whose file is
/// `path`: it names that file, holds the entries as pretty-printed JSON text,
/// which reads back as the same entries, and answers with those entries.
pub open spec fn saved(path: Seq<char>, entries: Seq<Seq<char>>, req: PersistRequest) -> bool {
    &&& req.path@ == path
    &&& req.contents@ == json_pretty_string_array(entries)
    &&& json_string_array(req.contents@) == Some(entries)
    &&& names(req.entries@) == entries
}

/// The whitelist: its entries and the file they are saved to.
pub struct Whitelist {
    entries: Vec<String>,
    path: String,
}

impl View for Whitelist {
    type V = Seq<Seq<char>>;

    closed spec fn view(&self) -> Seq<Seq<char>> {
        names(self.entries@)
    }
}

impl Whitelist {
    /// The file the whitelist is saved to.
    pub closed spec fn file(&self) -> Seq<char> {
        self.path@
    }

    /// The whitelist saved in `path`, given the file's contents `raw` (`None`
    /// where it could not be read). A file that cannot be read or parsed (first
    /// run, a damaged file) gives an empty whitelist rather than an error.
    pub fn load(path: String, raw: Option<String>) -> (w: Whitelist)
        ensures
            w@ == loaded_entries(opt_text(raw)),
            w.file() == path@,
    {
        let parsed = match raw {
            Some(text) => parse_string_array(text.as_str()),
            None => None,
        };
        Self::from_parsed(path, parsed)
    }

    /// The whitelist saved in `path`, given what parsing its file gave:
    /// the entries, or none where the file held no JSON array of strings.
    pub fn from_parsed(path: String, parsed: Option<Vec<String>>) -> (w: Whitelist)
        ensures
            w@ == match parsed {
                Some(v) => names(v@),
                None => Seq::empty(),
            },
            w.file() == path@,
    {
        let entries = match parsed {
            Some(list) => list,
            None => Vec::new(),
        };
        proof {
            assert(names(Seq::<String>::empty()) =~= Seq::<Seq<char>>::empty());
        }
        Whitelist { entries, path }
    }

    /// The file contents for the current entries, or why they cannot be serialized.
    fn persist(&self) -> (r: Result<PersistRequest, String>)
        ensures
            r matches Ok(req) && saved(self.file(), self@, req),
    {
        let serialized = to_pretty_string_array(&self.entries);
        self.save_request(serialized)
    }

    /// The request to write the current entries, given what serializing them
    /// gave: the JSON text, or the text of the error.
    pub fn save_request(&self, serialized: Result<String, String>) -> (r: Result<PersistRequest, String>)
        ensures
            match serialized {
                Ok(text) => r matches Ok(req) && req.path@ == self.file() && req.contents@ == text@
                    && names(req.entries@) == self@,
                Err(e) => r matches Err(m) && m@ == serialize_failed_prefix() + e@,
            },
    {
        match serialized {
            Ok(text) => Ok(PersistRequest { path: self.path.clone(), contents: text, entries: self.list() }),
            Err(e) => Err(joined("序列化白名单失败：", e.as_str())),
        }
    }

    /// The entries, in order.
    pub fn list(&self) -> (v: Vec<String>)
        ensures
            names(v@) == self@,
    {
        let mut v: Vec<String> = Vec::new();
        for i in 0..self.entries.len()
            invariant
                names(v@) =~= names(self.entries@.take(i as int)),
        {
            v.push(self.entries[i].clone());
            assert(names(self.entries@.take(i + 1)) =~= names(self.entries@.take(i as int)).push(
                self.entries@[i as int]@,
            ));
        }
        assert(self.entries@.take(self.entries@.len() as int) =~= self.entries@);
        v
    }

    /// Adds the program name of the trimmed `program` (so that `./dev.sh`
    /// matches the `dev.sh` that `hides` computes) and asks for the file to be
    /// written. An empty name is refused; a name already present changes
    /// nothing.
    pub fn add(&mut self, program: String) -> (r: Result<Edit, String>)
        ensures
            final(self).file() == old(self).file(),
            normalize_entry(program@).len() == 0 ==> {
                &&& final(self)@ == old(self)@
                &&& r matches Err(m) && m@ == empty_entry_message()
            },
            normalize_entry(program@).len() > 0 ==> added(
                old(self)@,
                normalize_entry(program@),
                final(self)@,
            ),
            normalize_entry(program@).len() > 0 && old(self)@.contains(normalize_entry(program@))
                ==> (r matches Ok(Edit::Unchanged(v)) && names(v@) == old(self)@),
            normalize_entry(program@).len() > 0 && !old(self)@.contains(normalize_entry(program@))
                ==> (r matches Ok(Edit::Changed(req)) && saved(final(self).file(), final(self)@, req)),
    {
        let name = program_name(trim(program.as_str()));
        if name.is_empty() {
            return Err(String::from_str("白名单项不能为空"));
        }
        let entry = String::from_str(name);
        let mut i: usize = 0;
        while i < self.entries.len()
            invariant
                i <= self.entries@.len(),
                entry@ == normalize_entry(program@),
                normalize_entry(program@).len() > 0,
                forall|j: int| 0 <= j < i ==> names(self.entries@)[j] != entry@,
            decreases self.entries@.len() - i,
        {
            if same_text(self.entries[i].as_str(), entry.as_str()) {
                assert(self@[i as int] == entry@);
                return Ok(Edit::Unchanged(self.list()));
            }
            i += 1;
        }
        let ghost before = self@;
        let mut grown = self.list();
        grown.push(entry);
        assert(names(grown@) =~= before.push(normalize_entry(program@)));
        self.entries = sort_names(&grown);
        match self.persist() {
            Ok(req) => Ok(Edit::Changed(req)),
            Err(m) => Err(m),
        }
    }

    /// Removes every entry equal to `program` and asks for the file to be written.
    pub fn remove(&mut self, program: &str) -> (r: Result<PersistRequest, String>)
        ensures
            final(self).file() == old(self).file(),
            final(self)@ == without(old(self)@, program@),
            r matches Ok(req) && saved(final(self).file(), final(self)@, req),
    {
        let mut kept: Vec<String> = Vec::new();
        for i in 0..self.entries.len()
            invariant
                names(kept@) =~= without(names(self.entries@).take(i as int), program@),
        {
            let ghost before = names(kept@);
            if !same_text(self.entries[i].as_str(), program) {
                kept.push(self.entries[i].clone());
                assert(names(kept@) =~= before.push(self.entries@[i as int]@));
            }
            proof {
                reveal(Seq::filter);
                let all = names(self.entries@);
                assert(all.take(i + 1).drop_last() =~= all.take(i as int));
                assert(all.take(i + 1).last() == all[i as int]);
                assert(without(all.take(i + 1), program@) == if all[i as int] != program@ {
                    without(all.take(i as int), program@).push(all[i as int])
                } else {
                    without(all.take(i as int), program@)
                });
            }
        }
        assert(names(self.entries@).take(self.entries@.len() as int) =~= names(self.entries@));
        self.entries = kept;
        self.persist()
    }

    /// Whether `command` is to be left out: some entry has its program name.
    /// Entries are normalized too, since older files may hold `./dev.sh`.
    pub fn hides(&self, command: &str) -> (r: bool)
        ensures
            r == hides_spec(self@, command@),
    {
        let program = program_name(command);
        for i in 0..self.entries.len()
            invariant
                program@ == spec_program_name(command@),
                forall|j: int|
                    0 <= j < i ==> spec_program_name(#[trigger] names(self.entries@)[j])
                        != program@,
        {
            if same_text(program_name(self.entries[i].as_str()), program) {
                assert(spec_program_name(self@[i as int]) == spec_program_name(command@));
                return true;
            }
        }
        false
    }
}

/// Every entry is its own program name, as the entries that `add` stores are.
pub open spec fn all_normalized(entries: Seq<Seq<char>>) -> bool {
    forall|i: int| 0 <= i < entries.len() ==> spec_program_name(#[trigger] entries[i]) == entries[i]
}

proof fn lemma_added_contains(old: Seq<Seq<char>>, entry: Seq<char>, new: Seq<Seq<char>>)
    requires
        added(old, entry, new),
    ensures
        new.contains(entry),
        forall|i: int| 0 <= i < new.len() ==> #[trigger] old.push(entry).contains(new[i]),
{
    broadcast use vstd::seq_lib::group_to_multiset_ensures;

    if !old.contains(entry) {
        assert(old.push(entry).to_multiset().count(entry) > 0) by {
            assert(old.push(entry)[old.len() as int] == entry);
        }
        assert(new.to_multiset().count(entry) > 0);
        assert forall|i: int| 0 <= i < new.len() implies #[trigger] old.push(entry).contains(
            new[i],
        ) by {
            assert(new.to_multiset().count(new[i]) > 0);
        }
    } else {
        assert forall|i: int| 0 <= i < new.len() implies #[trigger] old.push(entry).contains(
            new[i],
        ) by {
            assert(old.push(entry)[i] == new[i]);
        }
    }
}

/// Law: once a program has been added, every command that runs it is hidden.
pub proof fn law_added_program_is_hidden(
    old: Seq<Seq<char>>,
    program: Seq<char>,
    new: Seq<Seq<char>>,
    command: Seq<char>,
)
    requires
        normalize_entry(program).len() > 0,
        added(old, normalize_entry(program), new),
        spec_program_name(command) == normalize_entry(program),
    ensures
        hides_spec(new, command),
{
    let p = normalize_entry(program);
    lemma_added_contains(old, p, new);
    let i = choose|i: int| 0 <= i < new.len() && new[i] == p;
    law_program_name_idempotent(spec_trim(program));
    assert(spec_program_name(new[i]) == spec_program_name(command));
}

/// Law: adding a program a second time leaves the list as the first time left it.
pub proof fn law_add_twice_is_add_once(
    old: Seq<Seq<char>>,
    program: Seq<char>,
    once: Seq<Seq<char>>,
    twice: Seq<Seq<char>>,
)
    requires
        normalize_entry(program).len() > 0,
        added(old, normalize_entry(program), once),
        added(once, normalize_entry(program), twice),
    ensures
        twice == once,
{
    lemma_added_contains(old, normalize_entry(program), once);
}

/// Law: whether a command is hidden depends on its program name alone; the
/// arguments never matter (`echo npm` is not hidden by `npm`).
pub proof fn law_hides_by_program_name(entries: Seq<Seq<char>>, a: Seq<char>, b: Seq<char>)
    requires
        spec_program_name(a) == spec_program_name(b),
    ensures
        hides_spec(entries, a) == hides_spec(entries, b),
{
}

/// Law: adding keeps a list of program names a list of program names.
pub proof fn law_add_keeps_entries_normalized(
    old: Seq<Seq<char>>,
    program: Seq<char>,
    new: Seq<Seq<char>>,
)
    requires
        all_normalized(old),
        normalize_entry(program).len() > 0,
        added(old, normalize_entry(program), new),
    ensures
        all_normalized(new),
{
    let p = normalize_entry(program);
    lemma_added_contains(old, p, new);
    law_program_name_idempotent(spec_trim(program));
    assert forall|i: int| 0 <= i < new.len() implies spec_program_name(#[trigger] new[i])
        == new[i] by {
        assert(old.push(p).contains(new[i]));
        let j = choose|j: int| 0 <= j < old.push(p).len() && old.push(p)[j] == new[i];
        if j < old.len() {
            assert(old[j] == new[i]);
        }
    }
}

/// Law: after a removal the list holds the removed entry no more.
pub proof fn law_removed_entry_is_gone(entries: Seq<Seq<char>>, entry: Seq<char>)
    ensures
        !without(entries, entry).contains(entry),
{
    broadcast use vstd::seq_lib::group_filter_ensures;

    if without(entries, entry).contains(entry) {
        let i = choose|i: int|
            0 <= i < without(entries, entry).len() && without(entries, entry)[i] == entry;
        assert(without(entries, entry)[i] != entry);
    }
}

/// Law: in a list of program names, removing a command's program name
/// unhides that command.
pub proof fn law_remove_unhides(entries: Seq<Seq<char>>, command: Seq<char>)
    requires
        all_normalized(entries),
    ensures
        !hides_spec(without(entries, spec_program_name(command)), command),
{
    broadcast use vstd::seq_lib::group_filter_ensures;

    let x = spec_program_name(command);
    let kept = without(entries, x);
    assert forall|i: int| 0 <= i < kept.len() implies #[trigger] spec_program_name(kept[i])
        != x by {
        assert(kept[i] != x);
        assert(kept.contains(kept[i]));
        entries.lemma_filter_contains_rev(other_than(x), kept[i]);
        let j = choose|j: int| 0 <= j < entries.len() && entries[j] == kept[i];
        assert(spec_program_name(entries[j]) == entries[j]);
    }
}

/// Law: the file contents that a save request (from `add` or `remove`) asks
/// to write load back, through `Whitelist::load`, as exactly the list that the
/// call answers with.
pub proof fn law_saved_file_loads_back(path: Seq<char>, entries: Seq<Seq<char>>, req: PersistRequest)
    requires
        saved(path, entries, req),
    ensures
        loaded_entries(Some(req.contents@)) == names(req.entries@),
        loaded_entries(Some(req.contents@)) == entries,
{
}

proof fn lemma_without_count(s: Seq<Seq<char>>, x: Seq<char>, y: Seq<char>)
    ensures
        without(s, x).to_multiset().count(y) == if y == x {
            0
        } else {
            s.to_multiset().count(y)
        },
    decreases s.len(),
{
    broadcast use vstd::seq_lib::group_to_multiset_ensures;

    reveal(Seq::filter);
    if s.len() == 0 {
        assert(without(s, x) =~= Seq::<Seq<char>>::empty());
    } else {
        lemma_without_count(s.drop_last(), x, y);
        assert(s =~= s.drop_last().push(s.last()));
    }
}

proof fn lemma_without_sorted(s: Seq<Seq<char>>, x: Seq<char>)
    requires
        sorted_lex(s),
    ensures
        sorted_lex(without(s, x)),
    decreases s.len(),
{
    reveal(Seq::filter);
    if s.len() > 0 {
        let init = s.drop_last();
        assert(sorted_lex(init)) by {
            assert forall|i: int, j: int| 0 <= i < j < init.len() implies lex_le(
                #[trigger] init[i],
                #[trigger] init[j],
            ) by {
                assert(init[i] == s[i] && init[j] == s[j]);
            }
        }
        lemma_without_sorted(init, x);
        let w = without(init, x);
        if s.last() != x {
            let v = w.push(s.last());
            assert forall|i: int, j: int| 0 <= i < j < v.len() implies lex_le(
                #[trigger] v[i],
                #[trigger] v[j],
            ) by {
                if j == w.len() {
                    assert(w.contains(w[i]));
                    init.lemma_filter_contains_rev(other_than(x), w[i]);
                    let k = choose|k: int| 0 <= k < init.len() && init[k] == w[i];
                    assert(s[k] == w[i]);
                    assert(v[j] == s[s.len() - 1]);
                } else {
                    assert(v[i] == w[i] && v[j] == w[j]);
                }
            }
        }
    }
}

/// Law: removing the entry that an add has just put in gives back the
/// sorted list from before the add.
pub proof fn law_remove_undoes_add(old: Seq<Seq<char>>, program: Seq<char>, mid: Seq<Seq<char>>)
    requires
        sorted_lex(old),
        normalize_entry(program).len() > 0,
        !old.contains(normalize_entry(program)),
        added(old, normalize_entry(program), mid),
    ensures
        without(mid, normalize_entry(program)) == old,
{
    broadcast use vstd::seq_lib::group_to_multiset_ensures;

    let p = normalize_entry(program);
    let w = without(mid, p);
    lemma_without_sorted(mid, p);
    assert(w.to_multiset() =~= old.to_multiset()) by {
        assert forall|y: Seq<char>| #[trigger] w.to_multiset().count(y) == old.to_multiset().count(
            y,
        ) by {
            lemma_without_count(mid, p, y);
            if y == p {
                assert(!old.contains(p));
                assert(old.to_multiset().count(p) == 0);
            }
        }
    }
    law_sorted_permutation_is_unique(w, old);
}

/// The file contents after an add that answered `edit`, where `file` held
/// `text` before: an unchanged list writes nothing.
pub open spec fn file_after_add(text: Seq<char>, edit: Edit) -> Seq<char> {
    match edit {
        Edit::Changed(req) => req.contents@,
        Edit::Unchanged(_) => text,
    }
}

/// Law: an add keeps the whitelist file in step with the list: where the file
/// held text that loads as the list before the add, it holds (after the write
/// that the add asks for, if any) text that loads as the list after it, which
/// is also the list the add answers with.
pub proof fn law_add_keeps_file_in_step(
    text: Seq<char>,
    path: Seq<char>,
    old: Seq<Seq<char>>,
    program: Seq<char>,
    new: Seq<Seq<char>>,
    edit: Edit,
)
    requires
        loaded_entries(Some(text)) == old,
        normalize_entry(program).len() > 0,
        added(old, normalize_entry(program), new),
        old.contains(normalize_entry(program)) ==> (edit matches Edit::Unchanged(v) && names(v@)
            == old),
        !old.contains(normalize_entry(program)) ==> (edit matches Edit::Changed(req) && saved(
            path,
            new,
            req,
        )),
    ensures
        loaded_entries(Some(file_after_add(text, edit))) == new,
        match edit {
            Edit::Changed(req) => names(req.entries@) == new,
            Edit::Unchanged(v) => names(v@) == new,
        },
{
}

/// Law: an add never unhides a command: whatever the old list hides, the
/// list after the add hides too.
pub proof fn law_add_never_unhides(
    old: Seq<Seq<char>>,
    program: Seq<char>,
    new: Seq<Seq<char>>,
    command: Seq<char>,
)
    requires
        normalize_entry(program).len() > 0,
        added(old, normalize_entry(program), new),
        hides_spec(old, command),
    ensures
        hides_spec(new, command),
{
    broadcast use vstd::seq_lib::group_to_multiset_ensures;

    let p = normalize_entry(program);
    let i = choose|i: int|
        0 <= i < old.len() && #[trigger] spec_program_name(old[i]) == spec_program_name(command);
    if !old.contains(p) {
        assert(old.push(p)[i] == old[i]);
        assert(old.push(p).to_multiset().count(old[i]) > 0);
        assert(new.to_multiset().count(old[i]) > 0);
        assert(new.contains(old[i]));
        let j = choose|j: int| 0 <= j < new.len() && new[j] == old[i];
        assert(spec_program_name(new[j]) == spec_program_name(command));
    }
}

/// Law: the entry that `add` stores for an input is the input's program name:
/// surrounding whitespace and arguments do not matter, and a plain word (no
/// whitespace, no `'/'`) is stored as itself, so `add("python3")` stores
/// `python3` and succeeds.
pub proof fn law_entry_is_program_name(input: Seq<char>)
    ensures
        normalize_entry(input) == spec_program_name(input),
        input.len() > 0 && (forall|j: int|
            0 <= j < input.len() ==> !is_ws(#[trigger] input[j]) && input[j] != '/')
            ==> normalize_entry(input) == input,
{
    law_trim_keeps_program_name(input);
    if input.len() > 0 && (forall|j: int|
        0 <= j < input.len() ==> !is_ws(#[trigger] input[j]) && input[j] != '/') {
        lemma_plain_word_is_own_name(input);
    }
}

} // verus!
