//! `stack list`: the stacks of the repository.
use vstd::prelude::*;
use vstd::string::StrSliceExecFns;

verus! {

/// The suffix of a stack description file.
pub const JSON_SUFFIX: &'static str = ".json";

/// A file name without its `.json` suffix (unchanged when it has none).
pub open spec fn stack_name_spec(file: Seq<char>) -> Seq<char> {
    if file.len() >= JSON_SUFFIX@.len() && file.subrange(file.len() - JSON_SUFFIX@.len(), file.len() as int) == JSON_SUFFIX@ {
        file.subrange(0, file.len() - JSON_SUFFIX@.len())
    } else {
        file
    }
}

/// The description file of stack `name` is `name.json`, and it names that
/// stack back; a file name that does not end in `.json` is kept whole.
pub proof fn lemma_stack_name_of_file(name: Seq<char>, other: Seq<char>)
    ensures
        stack_name_spec(name + JSON_SUFFIX@) == name,
        !(other.len() >= JSON_SUFFIX@.len() && other.subrange(other.len() - JSON_SUFFIX@.len(), other.len() as int)
            == JSON_SUFFIX@) ==> stack_name_spec(other) == other,
{
    let file = name + JSON_SUFFIX@;
    assert(file.subrange(file.len() - JSON_SUFFIX@.len(), file.len() as int) =~= JSON_SUFFIX@);
    assert(file.subrange(0, file.len() - JSON_SUFFIX@.len()) =~= name);
}

/// The stack named by a description file: the file name without `.json`.
pub fn stack_name(file: &str) -> (res: String)
    ensures
        res@ == stack_name_spec(file@),
{
    let n = file.unicode_len();
    let k = JSON_SUFFIX.unicode_len();
    if n >= k {
        let tail = file.substring_char(n - k, n).to_owned();
        if tail == JSON_SUFFIX.to_owned() {
            return file.substring_char(0, n - k).to_owned();
        }
    }
    file.to_owned()
}

/// The lines `stack list` prints for the entries of the stacks folder
/// (`None` for an entry whose name is not UTF-8: it counts as an entry but
/// is not listed).
pub open spec fn listing_spec(entries: Seq<Option<Seq<char>>>) -> Seq<Seq<char>> {
    if entries.len() == 0 {
        seq!["No stacks available"@]
    } else {
        seq!["Available stacks:"@] + names_spec(entries)
    }
}

/// One line per listed stack.
pub open spec fn names_spec(entries: Seq<Option<Seq<char>>>) -> Seq<Seq<char>>
    decreases entries.len(),
{
    if entries.len() == 0 {
        Seq::empty()
    } else {
        let rest = names_spec(entries.drop_last());
        match entries.last() {
            Some(name) => rest.push(" - "@ + stack_name_spec(name)),
            None => rest,
        }
    }
}

/// The views of optional strings.
pub open spec fn entries_view(entries: Seq<Option<String>>) -> Seq<Option<Seq<char>>> {
    entries.map_values(|e: Option<String>| match e { Some(s) => Some(s@), None => None })
}

/// The views of strings.
pub open spec fn lines_view(lines: Seq<String>) -> Seq<Seq<char>> {
    lines.map_values(|l: String| l@)
}

/// The lines `stack list` prints.
pub fn listing(entries: &Vec<Option<String>>) -> (res: Vec<String>)
    ensures
        lines_view(res@) == listing_spec(entries_view(entries@)),
{
    let mut lines: Vec<String> = Vec::new();
    if entries.len() == 0 {
        lines.push("No stacks available".to_owned());
        assert(lines_view(lines@) =~= listing_spec(entries_view(entries@)));
        return lines;
    }
    lines.push("Available stacks:".to_owned());
    let ghost ev = entries_view(entries@);
    let mut i: usize = 0;
    while i < entries.len()
        invariant
            i <= entries.len(),
            ev == entries_view(entries@),
            entries.len() > 0,
            lines_view(lines@) == seq!["Available stacks:"@] + names_spec(ev.take(i as int)),
        decreases entries.len() - i,
    {
        let ghost before = lines@;
        assert(ev.take(i + 1).drop_last() =~= ev.take(i as int));
        assert(ev.take(i + 1).last() == ev[i as int]);
        match &entries[i] {
            Some(name) => {
                let mut line = " - ".to_owned();
                let stack = stack_name(name.as_str());
                line.append(stack.as_str());
                lines.push(line);
                assert(lines_view(lines@) =~= lines_view(before).push(line@));
            },
            None => {},
        }
        i += 1;
    }
    assert(ev.take(entries.len() as int) =~= ev);
    lines
}

} // verus!
