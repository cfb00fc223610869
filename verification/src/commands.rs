use vstd::prelude::*;

use crate::text::{contains, contains_str, starts_with, str_eq, trim, trim_bounds};

verus! {

/// Why a command refuses to go on.
#[derive(Debug, PartialEq, Eq)]
pub enum CommandError {
    /// There is no entry (nor group of entries) of that name.
    NoSuchEntry,
    /// A password of length 0 was asked for.
    ZeroLength,
    /// The password and its confirmation differ.
    PasswordsDiffer,
    /// The name is a group of this many entries, and removing it takes
    /// `--recursive`.
    GroupNeedsRecursive(usize),
}

/// Whether a write may go ahead.
#[derive(Debug)]
pub enum Overwrite {
    /// Nothing is in the way, or the caller forced the write.
    Proceed,
    /// An entry is in the way: the user is to be asked this question first.
    Ask(String),
}

/// The question asked before an entry named `name` is overwritten.
pub open spec fn overwrite_prompt(name: Seq<char>) -> Seq<char> {
    name + " already exists. Overwrite?"@
}

/// Whether it is OK to write the entry `name` whose file `exists` already:
/// without asking when the file does not exist yet or `force` is set, and
/// otherwise only once the user has answered the returned question.
pub fn confirm_overwrite(exists: bool, name: &str, force: bool) -> (r: Overwrite)
    ensures
        r is Ask <==> exists && !force,
        r matches Overwrite::Ask(prompt) ==> prompt@ == overwrite_prompt(name@),
{
    if exists && !force {
        let mut prompt = String::from_str(name);
        prompt.append(" already exists. Overwrite?");
        Overwrite::Ask(prompt)
    } else {
        Overwrite::Proceed
    }
}

/// Whether `word` lower-cases (`str::to_lowercase`) to `y` or `yes`.  Under
/// the Unicode case mappings only `Y`, `E` and `S` lower-case to `y`, `e`
/// and `s`, and no character lower-cases to nothing, so these are the words
/// `y` and `yes` in any mix of cases.
pub open spec fn is_yes(word: Seq<char>) -> bool {
    ||| word.len() == 1 && (word[0] == 'y' || word[0] == 'Y')
    ||| word.len() == 3 && (word[0] == 'y' || word[0] == 'Y') && (word[1] == 'e' || word[1]
        == 'E') && (word[2] == 's' || word[2] == 'S')
}

/// Whether the user's answer to a yes/no question means yes: once trimmed of
/// whitespace it is `y` or `yes`, in any case.  Anything else, the empty
/// answer included, means no.
pub fn answer_is_yes(answer: &str) -> (r: bool)
    ensures
        r == is_yes(trim(answer@)),
{
    let n = answer.unicode_len();
    let (a, b) = trim_bounds(answer, 0, n);
    assert(answer@.subrange(0, n as int) == answer@);
    let ghost w = answer@.subrange(a as int, b as int);
    if b - a == 1 {
        let c = answer.get_char(a);
        assert(w[0] == c);
        c == 'y' || c == 'Y'
    } else if b - a == 3 {
        let c0 = answer.get_char(a);
        let c1 = answer.get_char(a + 1);
        let c2 = answer.get_char(a + 2);
        assert(w[0] == c0 && w[1] == c1 && w[2] == c2);
        (c0 == 'y' || c0 == 'Y') && (c1 == 'e' || c1 == 'E') && (c2 == 's' || c2 == 'S')
    } else {
        false
    }
}

/// The length of a password to generate: the one asked for, 25 when none
/// is, and an error for 0.
pub fn generated_length(length: Option<usize>) -> (r: Result<usize, CommandError>)
    ensures
        match length {
            None => r == Ok::<usize, CommandError>(25),
            Some(n) => if n == 0 {
                r == Err::<usize, CommandError>(CommandError::ZeroLength)
            } else {
                r == Ok::<usize, CommandError>(n)
            },
        },
{
    let n = match length {
        Some(n) => n,
        None => 25,
    };
    if n == 0 {
        Err(CommandError::ZeroLength)
    } else {
        Ok(n)
    }
}

/// The password typed in, once its confirmation matches it.
pub fn confirmed_password(password: String, confirmation: &str) -> (r: Result<String, CommandError>)
    ensures
        password@ == confirmation@ <==> r is Ok,
        r matches Ok(p) ==> p == password,
        r matches Err(e) ==> e == CommandError::PasswordsDiffer,
{
    if str_eq(password.as_str(), confirmation) {
        Ok(password)
    } else {
        Err(CommandError::PasswordsDiffer)
    }
}

/// `s` without one trailing `'\n'`, as `str::strip_suffix('\n')` leaves it.
pub open spec fn strip_newline(s: Seq<char>) -> Seq<char> {
    if s.len() > 0 && s.last() == '\n' {
        s.drop_last()
    } else {
        s
    }
}

/// Stripping a newline drops the final character when it is `'\n'` and
/// changes nothing else: the result is `s` itself, or `s` with its last
/// character, a newline, taken off; every earlier newline stays.
pub proof fn lemma_strip_newline(s: Seq<char>)
    ensures
        strip_newline(s).is_prefix_of(s),
        s.len() > 0 && s.last() == '\n' ==> strip_newline(s) == s.take(s.len() - 1),
        !(s.len() > 0 && s.last() == '\n') ==> strip_newline(s) == s,
        strip_newline(s).len() + 1 >= s.len(),
{
    assert(s.take(s.len() as int) =~= s);
    if s.len() > 0 && s.last() == '\n' {
        assert(s.drop_last() =~= s.take(s.len() - 1));
    }
}

/// The new contents of an entry after editing: the edited text without one
/// trailing newline, or `None` when that is what the entry held already.
pub fn edited_entry(original: &str, edited: &str) -> (r: Option<String>)
    ensures
        r is None <==> strip_newline(edited@) == original@,
        r matches Some(s) ==> s@ == strip_newline(edited@),
        r matches Some(s) ==> if edited@.len() > 0 && edited@.last() == '\n' {
            s@ == edited@.take(edited@.len() - 1)
        } else {
            s@ == edited@
        },
        r is None <==> if edited@.len() > 0 && edited@.last() == '\n' {
            original@ == edited@.take(edited@.len() - 1)
        } else {
            original@ == edited@
        },
{
    let n = edited.unicode_len();
    let end = if n > 0 && edited.get_char(n - 1) == '\n' {
        n - 1
    } else {
        n
    };
    let stripped = edited.substring_char(0, end);
    assert(stripped@ == strip_newline(edited@));
    proof {
        lemma_strip_newline(edited@);
    }
    if str_eq(stripped, original) {
        None
    } else {
        Some(String::from_str(stripped))
    }
}

/// What `copy` and `mv` do before they write: the entry `old` must exist,
/// and overwriting `new_name` follows `confirm_overwrite`.
pub fn plan_transfer(old_exists: bool, new_exists: bool, new_name: &str, force: bool) -> (r: Result<
    Overwrite,
    CommandError,
>)
    ensures
        old_exists <==> r is Ok,
        r matches Err(e) ==> e == CommandError::NoSuchEntry,
        r matches Ok(o) ==> (o is Ask <==> new_exists && !force),
        r matches Ok(Overwrite::Ask(prompt)) ==> prompt@ == overwrite_prompt(new_name@),
{
    if !old_exists {
        return Err(CommandError::NoSuchEntry);
    }
    Ok(confirm_overwrite(new_exists, new_name, force))
}

/// What `remove` deletes.
#[derive(Debug, PartialEq, Eq)]
pub enum Removal {
    /// The single entry of that name.
    Entry,
    /// The group of that name, which holds this many entries.
    Group(usize),
}

/// What `remove` does: an entry of the name is removed; failing that, a
/// group of `group_size` entries under the name is removed if `recursive`
/// is set; an empty group means there is nothing of that name.
pub fn plan_remove(entry_exists: bool, group_size: usize, recursive: bool) -> (r: Result<
    Removal,
    CommandError,
>)
    ensures
        entry_exists ==> r == Ok::<Removal, CommandError>(Removal::Entry),
        !entry_exists && group_size == 0 ==> r == Err::<Removal, CommandError>(
            CommandError::NoSuchEntry,
        ),
        !entry_exists && group_size > 0 && !recursive ==> r == Err::<Removal, CommandError>(
            CommandError::GroupNeedsRecursive(group_size),
        ),
        !entry_exists && group_size > 0 && recursive ==> r == Ok::<Removal, CommandError>(
            Removal::Group(group_size),
        ),
{
    if entry_exists {
        Ok(Removal::Entry)
    } else if group_size == 0 {
        Err(CommandError::NoSuchEntry)
    } else if !recursive {
        Err(CommandError::GroupNeedsRecursive(group_size))
    } else {
        Ok(Removal::Group(group_size))
    }
}

/// The texts of a list of strings.
pub open spec fn texts(v: Seq<String>) -> Seq<Seq<char>> {
    v.map_values(|s: String| s@)
}

/// Whether an entry name lies in the group `name`: it starts with `name/`.
pub open spec fn in_group(name: Seq<char>) -> spec_fn(Seq<char>) -> bool {
    |entry: Seq<char>| name.push('/').is_prefix_of(entry)
}

/// Whether an entry name contains `pattern`.
pub open spec fn matches_pattern(pattern: Seq<char>) -> spec_fn(Seq<char>) -> bool {
    |entry: Seq<char>| contains_str(entry, pattern)
}

/// The entries of the group `name`: those whose name starts with `name/`,
/// in their order.
pub fn group_members(entries: &Vec<String>, name: &str) -> (r: Vec<String>)
    ensures
        texts(r@) == texts(entries@).filter(in_group(name@)),
{
    let mut prefix = String::from_str(name);
    prefix.append("/");
    proof {
        reveal_strlit("/");
        assert(prefix@ == name@.push('/'));
    }
    let mut r: Vec<String> = Vec::new();
    let mut i: usize = 0;
    while i < entries.len()
        invariant
            i <= entries@.len(),
            prefix@ == name@.push('/'),
            texts(r@) == texts(entries@).take(i as int).filter(in_group(name@)),
        decreases entries@.len() - i,
    {
        let ghost before = texts(entries@).take(i as int);
        let ghost after = texts(entries@).take(i + 1);
        assert(after.drop_last() == before);
        assert(after.last() == entries@[i as int]@);
        reveal_with_fuel(Seq::<_>::filter, 1);
        if starts_with(entries[i].as_str(), prefix.as_str()) {
            let e = entries[i].clone();
            r.push(e);
            assert(texts(r@) == texts(r@).drop_last().push(e@));
        } else {
            assert(texts(r@) == before.filter(in_group(name@)));
        }
        i = i + 1;
    }
    assert(texts(entries@).take(entries@.len() as int) == texts(entries@));
    r
}

/// The entries whose name contains `pattern`, in their order.
pub fn matching_entries(entries: &Vec<String>, pattern: &str) -> (r: Vec<String>)
    ensures
        texts(r@) == texts(entries@).filter(matches_pattern(pattern@)),
{
    let mut r: Vec<String> = Vec::new();
    let mut i: usize = 0;
    while i < entries.len()
        invariant
            i <= entries@.len(),
            texts(r@) == texts(entries@).take(i as int).filter(matches_pattern(pattern@)),
        decreases entries@.len() - i,
    {
        let ghost before = texts(entries@).take(i as int);
        let ghost after = texts(entries@).take(i + 1);
        assert(after.drop_last() == before);
        assert(after.last() == entries@[i as int]@);
        reveal_with_fuel(Seq::<_>::filter, 1);
        if contains(entries[i].as_str(), pattern) {
            let e = entries[i].clone();
            r.push(e);
            assert(texts(r@) == texts(r@).drop_last().push(e@));
        }
        i = i + 1;
    }
    assert(texts(entries@).take(entries@.len() as int) == texts(entries@));
    r
}

} // verus!
