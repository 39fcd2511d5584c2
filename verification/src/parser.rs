//! Reads the lines `UUID > NAME` into an identifier map.
//!
//! A line is parted at its first `>`. What stands before it, without the
//! white space around it, must be a UUID; what stands after it, treated the
//! same way, is the name, which may be empty. The first line whose
//! identifier is no UUID fails the whole input. An identifier that comes
//! again takes the later name, and the change is noted as a warning.

use crate::error::ActionError;
use crate::error::ActionErrorView;
use crate::identifier::hyphenated;
use crate::identifier::uuid_value;
use crate::identifier::SecretId;
use crate::mapping::IdentifierMap;
use crate::text::after_separator;
use crate::text::before_separator;
use crate::text::find_separator;
use crate::text::trim;
use crate::text::trimmed;
use vstd::prelude::*;
use vstd::string::*;

verus! {

/// The identifier of a line, as it is written.
pub open spec fn id_text_of(line: Seq<char>) -> Seq<char> {
    trimmed(before_separator(line))
}

/// The name that a line gives.
pub open spec fn name_of(line: Seq<char>) -> Seq<char> {
    trimmed(after_separator(line))
}

/// The identifier of a line, or `None` where the line has none that is a
/// UUID.
pub open spec fn id_of(line: Seq<char>) -> Option<u128> {
    uuid_value(id_text_of(line))
}

/// The two parts of a line.
#[derive(Debug, PartialEq, Eq)]
pub struct MappingLine {
    pub id_text: String,
    pub name: String,
}

/// Parts a line into its identifier and its name.
pub fn split_mapping_line(line: &str) -> (r: MappingLine)
    ensures
        r.id_text@ == id_text_of(line@),
        r.name@ == name_of(line@),
{
    match find_separator(line) {
        Some(at) => {
            let n: usize = line.unicode_len();
            let head = line.substring_char(0, at);
            let tail = line.substring_char(at + 1, n);
            MappingLine { id_text: String::from_str(trim(head)), name: String::from_str(trim(tail)) }
        },
        None => {
            assert(trimmed(Seq::<char>::empty()) =~= Seq::<char>::empty());
            MappingLine { id_text: String::from_str(trim(line)), name: String::new() }
        },
    }
}

/// The note that an identifier was given twice and took the later name.
#[derive(Debug, PartialEq, Eq)]
pub struct DuplicateWarning {
    pub id: SecretId,
    pub old_name: String,
    pub new_name: String,
}

/// A [`DuplicateWarning`] with its names as sequences of characters.
pub struct DuplicateWarningView {
    pub id: u128,
    pub old_name: Seq<char>,
    pub new_name: Seq<char>,
}

impl View for DuplicateWarning {
    type V = DuplicateWarningView;

    open spec fn view(&self) -> DuplicateWarningView {
        DuplicateWarningView {
            id: self.id.value,
            old_name: self.old_name@,
            new_name: self.new_name@,
        }
    }
}

/// The line that a warning is reported with.
pub open spec fn warning_text(warning: DuplicateWarningView) -> Seq<char> {
    "Warning: Duplicate UUID found: "@ + hyphenated(warning.id) + ". Old value: "@
        + warning.old_name + ", New value: "@ + warning.new_name
}

impl DuplicateWarning {
    /// The line that the warning is reported with.
    pub fn message(&self) -> (r: String)
        ensures
            r@ == warning_text(self@),
    {
        let mut r = String::from_str("Warning: Duplicate UUID found: ");
        let id_text = self.id.to_text();
        r.append(id_text.as_str());
        r.append(". Old value: ");
        r.append(self.old_name.as_str());
        r.append(", New value: ");
        r.append(self.new_name.as_str());
        r
    }
}

/// What has been read so far: the names by identifier, and the warnings in
/// the order in which they arose.
pub struct Reading {
    pub names: Map<u128, Seq<char>>,
    pub warnings: Seq<DuplicateWarningView>,
}

/// The reading before any line.
pub open spec fn empty_reading() -> Reading {
    Reading { names: Map::empty(), warnings: Seq::empty() }
}

/// The reading after one more line, which gives `id` the name `name`.
pub open spec fn read_entry(prior: Reading, id: u128, name: Seq<char>) -> Reading {
    Reading {
        names: prior.names.insert(id, name),
        warnings: if prior.names.contains_key(id) {
            prior.warnings.push(
                DuplicateWarningView { id, old_name: prior.names[id], new_name: name },
            )
        } else {
            prior.warnings
        },
    }
}

/// The reading of `lines`, or the error of the first line whose identifier
/// is no UUID.
pub open spec fn read_lines(lines: Seq<Seq<char>>) -> Result<Reading, ActionErrorView>
    decreases lines.len(),
{
    if lines.len() == 0 {
        Ok(empty_reading())
    } else {
        match read_lines(lines.drop_last()) {
            Err(error) => Err(error),
            Ok(prior) => match id_of(lines.last()) {
                Some(id) => Ok(read_entry(prior, id, name_of(lines.last()))),
                None => Err(ActionErrorView::MalformedIdentifier { text: id_text_of(lines.last()) }),
            },
        }
    }
}

/// The lines as sequences of characters.
pub open spec fn texts(lines: Seq<String>) -> Seq<Seq<char>> {
    lines.map_values(|line: String| line@)
}

/// The outcome of reading the input: the identifier map, and the warnings
/// to report.
#[derive(Debug)]
pub struct ParsedInput {
    pub map: IdentifierMap,
    pub warnings: Vec<DuplicateWarning>,
}

impl View for ParsedInput {
    type V = Reading;

    open spec fn view(&self) -> Reading {
        Reading {
            names: self.map@,
            warnings: self.warnings@.map_values(|warning: DuplicateWarning| warning@),
        }
    }
}

impl ParsedInput {
    /// The outcome of reading no line.
    pub fn new() -> (r: ParsedInput)
        ensures
            r@ == empty_reading(),
    {
        let r = ParsedInput { map: IdentifierMap::new(), warnings: Vec::new() };
        assert(r@.warnings =~= Seq::empty());
        r
    }

    /// Takes in one line. `id` is what the line's identifier was read as:
    /// `None` where it is no UUID, which is an error and leaves the outcome
    /// as it was.
    pub fn accept(&mut self, id: Option<SecretId>, line: MappingLine) -> (r: Result<
        (),
        ActionError,
    >)
        ensures
            match id {
                Some(id) => r is Ok && final(self)@ == read_entry(
                    old(self)@,
                    id.value,
                    line.name@,
                ),
                None => final(self)@ == old(self)@ && match r {
                    Ok(_) => false,
                    Err(error) => error@ == (ActionErrorView::MalformedIdentifier {
                        text: line.id_text@,
                    }),
                },
            },
    {
        match id {
            None => Err(ActionError::MalformedIdentifier { text: line.id_text }),
            Some(id) => {
                let new_name = line.name.clone();
                match self.map.insert(id, line.name) {
                    Some(old_name) => {
                        self.warnings.push(DuplicateWarning { id, old_name, new_name });
                        assert(self@.warnings =~= read_entry(
                            old(self)@,
                            id.value,
                            line.name@,
                        ).warnings);
                    },
                    None => {},
                }
                Ok(())
            },
        }
    }
}

/// Reads the lines of the input, in their order.
///
/// The result is `Ok` exactly where the identifier of every line is a
/// UUID. It then holds, for each identifier, the name of the last line that
/// gives it, and one warning for each line that replaces a name. Otherwise
/// it is the error of the first line at fault, which names the identifier
/// as written.
pub fn parse_secret_input(secret_lines: Vec<String>) -> (r: Result<ParsedInput, ActionError>)
    ensures
        r is Err <==> exists|i: int| line_is_malformed(texts(secret_lines@), i),
        match r {
            Ok(parsed) => read_lines(texts(secret_lines@)) == Ok::<Reading, ActionErrorView>(
                parsed@,
            ),
            Err(error) => read_lines(texts(secret_lines@)) == Err::<Reading, ActionErrorView>(
                error@,
            ),
        },
{
    let ghost all = texts(secret_lines@);
    let n: usize = secret_lines.len();
    let mut parsed = ParsedInput::new();
    let mut at: usize = 0;
    assert(all.take(0) =~= Seq::<Seq<char>>::empty());
    while at < n
        invariant
            at <= n,
            n == secret_lines@.len(),
            all == texts(secret_lines@),
            read_lines(all.take(at as int)) == Ok::<Reading, ActionErrorView>(parsed@),
        decreases n - at,
    {
        let line = split_mapping_line(secret_lines[at].as_str());
        let id = SecretId::parse(line.id_text.as_str());
        proof {
            assert(all.take(at + 1).drop_last() =~= all.take(at as int));
            assert(all.take(at + 1).last() == secret_lines@[at as int]@);
        }
        match parsed.accept(id, line) {
            Ok(_) => {},
            Err(error) => {
                proof {
                    lemma_error_is_final(all, at + 1);
                    lemma_failure_is_first_malformed_line(all);
                }
                return Err(error);
            },
        }
        at = at + 1;
    }
    proof {
        assert(all.take(n as int) =~= all);
        lemma_failure_is_first_malformed_line(all);
    }
    Ok(parsed)
}

/// Once a line has failed, the lines after it change nothing.
pub proof fn lemma_error_is_final(lines: Seq<Seq<char>>, upto: int)
    requires
        0 <= upto <= lines.len(),
        read_lines(lines.take(upto)) is Err,
    ensures
        read_lines(lines) == read_lines(lines.take(upto)),
    decreases lines.len() - upto,
{
    if upto == lines.len() {
        assert(lines.take(upto) =~= lines);
    } else {
        assert(lines.take(upto + 1).drop_last() =~= lines.take(upto));
        lemma_error_is_final(lines, upto + 1);
    }
}

/// Whether line `i` of `lines` gives the identifier `id`.
pub open spec fn line_gives(lines: Seq<Seq<char>>, i: int, id: u128) -> bool {
    0 <= i < lines.len() && id_of(lines[i]) == Some(id)
}

/// Whether the identifier of line `i` is no UUID.
pub open spec fn line_is_malformed(lines: Seq<Seq<char>>, i: int) -> bool {
    0 <= i < lines.len() && id_of(lines[i]) is None
}

/// Whether no line after line `i` gives the identifier of line `i` again.
pub open spec fn is_last_mention(lines: Seq<Seq<char>>, i: int) -> bool {
    &&& 0 <= i < lines.len()
    &&& forall|j: int| i < j < lines.len() ==> id_of(#[trigger] lines[j]) != id_of(lines[i])
}

/// Whether no two lines give the same identifier.
pub open spec fn ids_are_unique(lines: Seq<Seq<char>>) -> bool {
    forall|i: int, j: int|
        0 <= i < j < lines.len() ==> id_of(#[trigger] lines[i]) != id_of(#[trigger] lines[j])
}

/// Reading fails exactly where the identifier of some line is no UUID, and
/// the error is then that of the first such line: one bad line fails the
/// whole input, whatever the other lines hold.
pub proof fn lemma_failure_is_first_malformed_line(lines: Seq<Seq<char>>)
    ensures
        read_lines(lines) is Err <==> exists|i: int| line_is_malformed(lines, i),
        read_lines(lines) matches Err(error) ==> exists|i: int|
            {
                &&& #[trigger] line_is_malformed(lines, i)
                &&& forall|j: int| 0 <= j < i ==> !line_is_malformed(lines, j)
                &&& error == ActionErrorView::MalformedIdentifier { text: id_text_of(lines[i]) }
            },
    decreases lines.len(),
{
    if lines.len() > 0 {
        let before = lines.drop_last();
        let last = lines.len() - 1;
        lemma_failure_is_first_malformed_line(before);
        assert forall|i: int| line_is_malformed(before, i) implies line_is_malformed(lines, i) by {
            assert(before[i] == lines[i]);
        }
        match read_lines(before) {
            Err(error) => {
                let i = choose|i: int|
                    {
                        &&& #[trigger] line_is_malformed(before, i)
                        &&& forall|j: int| 0 <= j < i ==> !line_is_malformed(before, j)
                        &&& error == ActionErrorView::MalformedIdentifier {
                            text: id_text_of(before[i]),
                        }
                    };
                assert(line_is_malformed(lines, i));
                assert forall|j: int| 0 <= j < i implies !line_is_malformed(lines, j) by {
                    assert(before[j] == lines[j]);
                    assert(!line_is_malformed(before, j));
                }
            },
            Ok(prior) => {
                assert forall|j: int| 0 <= j < last implies !line_is_malformed(lines, j) by {
                    assert(before[j] == lines[j]);
                    assert(!line_is_malformed(before, j));
                }
                if id_of(lines.last()) is None {
                    assert(line_is_malformed(lines, last));
                }
            },
        }
    }
}

/// A line whose identifier is no UUID fails the input.
pub proof fn lemma_malformed_line_fails(lines: Seq<Seq<char>>, i: int)
    requires
        line_is_malformed(lines, i),
    ensures
        read_lines(lines) is Err,
{
    lemma_failure_is_first_malformed_line(lines);
}

/// Where every identifier is a UUID, the input is read: an identifier has a
/// name exactly if some line gives it, its name is that of the last line
/// that gives it, and each line has either added an identifier or raised a
/// warning.
pub proof fn lemma_last_name_wins(lines: Seq<Seq<char>>)
    requires
        forall|i: int| 0 <= i < lines.len() ==> !line_is_malformed(lines, i),
    ensures
        read_lines(lines) is Ok,
        ({
            let reading = read_lines(lines)->Ok_0;
            &&& forall|id: u128|
                reading.names.contains_key(id) <==> exists|i: int| line_gives(lines, i, id)
            &&& forall|i: int| #[trigger]
                is_last_mention(lines, i) ==> reading.names[id_of(lines[i])->0] == name_of(
                    lines[i],
                )
            &&& reading.names.dom().finite()
            &&& reading.names.len() + reading.warnings.len() == lines.len()
        }),
    decreases lines.len(),
{
    lemma_failure_is_first_malformed_line(lines);
    if lines.len() > 0 {
        let before = lines.drop_last();
        let last = lines.len() - 1;
        assert forall|i: int| 0 <= i < before.len() implies !line_is_malformed(before, i) by {
            assert(before[i] == lines[i]);
            assert(!line_is_malformed(lines, i));
        }
        lemma_last_name_wins(before);
        let prior = read_lines(before)->Ok_0;
        assert(!line_is_malformed(lines, last));
        let id = id_of(lines.last())->0;
        let reading = read_lines(lines)->Ok_0;
        assert(reading == read_entry(prior, id, name_of(lines.last())));
        assert forall|other: u128| reading.names.contains_key(other) <==> exists|i: int|
            line_gives(lines, i, other) by {
            if reading.names.contains_key(other) {
                if other == id {
                    assert(line_gives(lines, last, other));
                } else {
                    let i = choose|i: int| line_gives(before, i, other);
                    assert(before[i] == lines[i]);
                    assert(line_gives(lines, i, other));
                }
            }
            if exists|i: int| line_gives(lines, i, other) {
                let i = choose|i: int| line_gives(lines, i, other);
                if i < last {
                    assert(before[i] == lines[i]);
                    assert(line_gives(before, i, other));
                }
            }
        }
        assert forall|i: int| #[trigger] is_last_mention(lines, i) implies reading.names[id_of(
            lines[i],
        )->0] == name_of(lines[i]) by {
            if i < last {
                assert(before[i] == lines[i]);
                assert(id_of(lines[last]) != id_of(lines[i]));
                assert(!line_is_malformed(lines, i));
                assert forall|j: int| i < j < before.len() implies id_of(#[trigger] before[j])
                    != id_of(before[i]) by {
                    assert(before[j] == lines[j]);
                }
                assert(is_last_mention(before, i));
            }
        }
    }
}

/// Where every identifier is a UUID and none comes twice, the map has one
/// entry for each line, under the name that the line gives, and there is no
/// warning.
pub proof fn lemma_unique_ids_one_entry_each(lines: Seq<Seq<char>>)
    requires
        forall|i: int| 0 <= i < lines.len() ==> !line_is_malformed(lines, i),
        ids_are_unique(lines),
    ensures
        read_lines(lines) is Ok,
        ({
            let reading = read_lines(lines)->Ok_0;
            &&& reading.names.len() == lines.len()
            &&& reading.warnings.len() == 0
            &&& forall|i: int|
                0 <= i < lines.len() ==> {
                    &&& reading.names.contains_key(id_of(#[trigger] lines[i])->0)
                    &&& reading.names[id_of(lines[i])->0] == name_of(lines[i])
                }
        }),
    decreases lines.len(),
{
    lemma_last_name_wins(lines);
    let reading = read_lines(lines)->Ok_0;
    assert forall|i: int| 0 <= i < lines.len() implies {
        &&& reading.names.contains_key(id_of(#[trigger] lines[i])->0)
        &&& reading.names[id_of(lines[i])->0] == name_of(lines[i])
    } by {
        assert(!line_is_malformed(lines, i));
        assert(line_gives(lines, i, id_of(lines[i])->0));
        assert(is_last_mention(lines, i));
    }
    if lines.len() > 0 {
        let before = lines.drop_last();
        let last = lines.len() - 1;
        assert forall|i: int| 0 <= i < before.len() implies !line_is_malformed(before, i) by {
            assert(before[i] == lines[i]);
            assert(!line_is_malformed(lines, i));
        }
        assert forall|i: int, j: int| 0 <= i < j < before.len() implies id_of(
            #[trigger] before[i],
        ) != id_of(#[trigger] before[j]) by {
            assert(before[i] == lines[i]);
            assert(before[j] == lines[j]);
        }
        lemma_unique_ids_one_entry_each(before);
        lemma_last_name_wins(before);
        let prior = read_lines(before)->Ok_0;
        assert(!line_is_malformed(lines, last));
        let id = id_of(lines.last())->0;
        if prior.names.contains_key(id) {
            let i = choose|i: int| line_gives(before, i, id);
            assert(before[i] == lines[i]);
            assert(id_of(lines[i]) != id_of(lines[last]));
        }
    }
}

/// Reading keeps no state: the same lines are read to the same outcome,
/// whenever and however often they are read.
pub proof fn lemma_reading_is_repeatable(
    first_lines: Seq<Seq<char>>,
    second_lines: Seq<Seq<char>>,
)
    requires
        first_lines =~= second_lines,
    ensures
        read_lines(first_lines) == read_lines(second_lines),
{
}

} // verus!
