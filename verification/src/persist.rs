//! Persists secrets for the later steps of the job.
//!
//! A secret reaches the later steps through the environment file, to which
//! one frame is appended for each secret:
//!
//! ```text
//! NAME<<DELIMITER
//! value, as it is, over as many lines as it has
//! DELIMITER
//! ```
//!
//! The delimiter is drawn anew for every frame, so that no value can be
//! written to end its own frame. Before a frame is written, the value is
//! masked: a line on standard output tells the runner to redact the value
//! wherever it appears from then on.
//!
//! Nothing here touches a file or the standard output. The functions say
//! what is to be done, as a list of [`Effect`]s in the order in which they
//! are to take place.

use crate::identifier::format_uuid;
use crate::identifier::hyphenated;
use crate::identifier::is_random_uuid;
use crate::identifier::lemma_hyphenated_alphabet;
use crate::identifier::random_uuid;
use crate::projection::EnvProjection;
use crate::text::is_blank;
use crate::text::is_blank_text;
use crate::text::is_whitespace;
use vstd::prelude::*;
use vstd::string::*;

verus! {

/// The line that masks `value`.
pub open spec fn mask_directive(value: Seq<char>) -> Seq<char> {
    "::add-mask::"@ + value
}

/// The line that says which secret is being set.
pub open spec fn announcement(name: Seq<char>) -> Seq<char> {
    "Setting secret: "@ + name
}

/// The delimiter made from the UUID `token`.
pub open spec fn delimiter_text(token: u128) -> Seq<char> {
    "ghadelimiter_"@ + hyphenated(token)
}

/// Whether `text` is a delimiter made from a random UUID.
pub open spec fn is_fresh_delimiter(text: Seq<char>) -> bool {
    exists|token: u128| is_random_uuid(token) && text == #[trigger] delimiter_text(token)
}

/// The frame of one secret, as it is appended to the environment file.
pub open spec fn frame_text(name: Seq<char>, delimiter: Seq<char>, value: Seq<char>) -> Seq<char> {
    name + "<<"@ + delimiter + "\n"@ + value + "\n"@ + delimiter + "\n"@
}

/// The line that closes a frame, with the line breaks before and after it.
pub open spec fn closing_line(delimiter: Seq<char>) -> Seq<char> {
    "\n"@ + delimiter + "\n"@
}

/// Whether `pattern` stands in `text` at position `at`.
pub open spec fn occurs_at(text: Seq<char>, pattern: Seq<char>, at: int) -> bool {
    &&& 0 <= at
    &&& at + pattern.len() <= text.len()
    &&& text.subrange(at, at + pattern.len()) == pattern
}

/// Whether one of the lines of `value` is `delimiter`.
pub open spec fn has_line(value: Seq<char>, delimiter: Seq<char>) -> bool {
    exists|at: int| occurs_at("\n"@ + value + "\n"@, closing_line(delimiter), at)
}

/// The path that frames are appended to: the configured one, or the null
/// device where none is configured or the configured one is blank.
pub open spec fn env_target(configured: Option<Seq<char>>) -> Seq<char> {
    match configured {
        Some(path) => if is_blank(path) {
            "/dev/null"@
        } else {
            path
        },
        None => "/dev/null"@,
    }
}

/// One thing to be done, in the order in which the list holds it.
#[derive(Debug, PartialEq, Eq)]
pub enum Effect {
    /// Write the text and a line break to standard output.
    Print(String),
    /// Append the text, as it is, to the environment file, which is
    /// created if it does not exist.
    Append(String),
    /// Flush the environment file, so that what was appended can be read.
    Flush,
}

/// An [`Effect`] with its text as a sequence of characters.
pub enum EffectView {
    Print(Seq<char>),
    Append(Seq<char>),
    Flush,
}

impl View for Effect {
    type V = EffectView;

    open spec fn view(&self) -> EffectView {
        match self {
            Effect::Print(text) => EffectView::Print(text@),
            Effect::Append(text) => EffectView::Append(text@),
            Effect::Flush => EffectView::Flush,
        }
    }
}

/// The effects as the contracts see them.
pub open spec fn effect_views(effects: Seq<Effect>) -> Seq<EffectView> {
    effects.map_values(|effect: Effect| effect@)
}

/// What is done for one secret: the value is masked, then the frame is
/// appended, then the file is flushed.
pub open spec fn secret_effects(
    name: Seq<char>,
    delimiter: Seq<char>,
    value: Seq<char>,
) -> Seq<EffectView> {
    seq![
        EffectView::Print(mask_directive(value)),
        EffectView::Append(frame_text(name, delimiter, value)),
        EffectView::Flush,
    ]
}

/// What is done for one entry of the projection: the secret is announced
/// by its name, then set.
pub open spec fn entry_effects(
    name: Seq<char>,
    delimiter: Seq<char>,
    value: Seq<char>,
) -> Seq<EffectView> {
    seq![EffectView::Print(announcement(name))] + secret_effects(name, delimiter, value)
}

/// A single framed write into the environment file.
#[derive(Debug, PartialEq, Eq)]
pub struct EnvFileEntry {
    pub name: String,
    pub delimiter: String,
    pub value: String,
}

impl EnvFileEntry {
    /// The text that is appended to the file for this entry.
    pub fn frame(&self) -> (r: String)
        ensures
            r@ == frame_text(self.name@, self.delimiter@, self.value@),
    {
        let mut r = self.name.clone();
        r.append("<<");
        r.append(self.delimiter.as_str());
        r.append("\n");
        r.append(self.value.as_str());
        r.append("\n");
        r.append(self.delimiter.as_str());
        r.append("\n");
        r
    }

    /// What is done to persist this entry.
    pub fn effects(&self) -> (r: Vec<Effect>)
        ensures
            r@.len() == 3,
            effect_views(r@) == secret_effects(self.name@, self.delimiter@, self.value@),
    {
        let mut r: Vec<Effect> = Vec::new();
        r.push(Effect::Print(mask_value(self.value.as_str())));
        r.push(Effect::Append(self.frame()));
        r.push(Effect::Flush);
        assert(effect_views(r@) =~= secret_effects(self.name@, self.delimiter@, self.value@));
        r
    }
}

/// The line on standard output that masks `value` in the logs.
pub fn mask_value(value: &str) -> (r: String)
    ensures
        r@ == mask_directive(value@),
{
    String::from_str("::add-mask::").concat(value)
}

/// The line that says which secret is being set.
pub fn announce(name: &str) -> (r: String)
    ensures
        r@ == announcement(name@),
{
    String::from_str("Setting secret: ").concat(name)
}

/// The delimiter made from the UUID `token`.
pub fn delimiter_for(token: u128) -> (r: String)
    ensures
        r@ == delimiter_text(token),
{
    let id_text = format_uuid(token);
    String::from_str("ghadelimiter_").concat(id_text.as_str())
}

/// A delimiter made from a UUID that is drawn at random.
pub fn fresh_delimiter() -> (r: String)
    ensures
        is_fresh_delimiter(r@),
{
    delimiter_for(random_uuid())
}

/// The path that frames are appended to. A run whose environment names no
/// file writes to the null device and does not fail on that account.
pub fn env_file_target(configured: Option<String>) -> (r: String)
    ensures
        r@ == env_target(
            match configured {
                Some(path) => Some(path@),
                None => None,
            },
        ),
{
    match configured {
        Some(path) => {
            if is_blank_text(path.as_str()) {
                String::from_str("/dev/null")
            } else {
                path
            }
        },
        None => String::from_str("/dev/null"),
    }
}

/// Frames `value` under the name `key`, with a delimiter of its own.
pub fn issue_file_command(key: &str, value: &str) -> (r: EnvFileEntry)
    ensures
        r.name@ == key@,
        r.value@ == value@,
        is_fresh_delimiter(r.delimiter@),
{
    EnvFileEntry {
        name: String::from_str(key),
        delimiter: fresh_delimiter(),
        value: String::from_str(value),
    }
}

/// What is done to set one secret: mask the value, append its frame, flush
/// the file, in this order.
pub fn set_secrets(secret_name: &str, secret_value: &str) -> (r: Vec<Effect>)
    ensures
        r@.len() == 3,
        exists|delimiter: Seq<char>|
            is_fresh_delimiter(delimiter) && effect_views(r@) == #[trigger] secret_effects(
                secret_name@,
                delimiter,
                secret_value@,
            ),
{
    let entry = issue_file_command(secret_name, secret_value);
    entry.effects()
}

/// Whether the four effects from position `4 * i` on are those of one
/// entry with the given name and value, under some fresh delimiter.
pub open spec fn persists_entry(
    effects: Seq<EffectView>,
    i: int,
    name: Seq<char>,
    value: Seq<char>,
) -> bool {
    exists|delimiter: Seq<char>|
        is_fresh_delimiter(delimiter) && effects.subrange(4 * i, 4 * i + 4)
            == #[trigger] entry_effects(name, delimiter, value)
}

/// What is done to persist all secrets of the projection: for each entry
/// in the order of its listing, and before anything is done for the next
/// one, the secret is announced, its value is masked, its frame is appended
/// with a delimiter drawn for this frame, and the file is flushed.
pub fn persist_secrets(env: &EnvProjection) -> (r: Vec<Effect>)
    ensures
        r@.len() == 4 * env.listing().len(),
        forall|i: int|
            0 <= i < env.listing().len() ==> #[trigger] persists_entry(
                effect_views(r@),
                i,
                env.listing()[i].0@,
                env.listing()[i].1@,
            ),
{
    let entries = env.entries();
    let n: usize = entries.len();
    let mut r: Vec<Effect> = Vec::new();
    let mut at: usize = 0;
    while at < n
        invariant
            at <= n,
            n == entries@.len(),
            r@.len() == 4 * at,
            forall|i: int|
                0 <= i < at ==> #[trigger] persists_entry(
                    effect_views(r@),
                    i,
                    entries@[i].0@,
                    entries@[i].1@,
                ),
        decreases n - at,
    {
        let ghost before = effect_views(r@);
        let name = entries[at].0.as_str();
        let value = entries[at].1.as_str();
        let notice = Effect::Print(announce(name));
        let mut steps = set_secrets(name, value);
        let ghost added = seq![notice@] + effect_views(steps@);
        let ghost drawn = choose|delimiter: Seq<char>|
            is_fresh_delimiter(delimiter) && effect_views(steps@) == #[trigger] secret_effects(
                name@,
                delimiter,
                value@,
            );
        r.push(notice);
        r.append(&mut steps);
        proof {
            let after = effect_views(r@);
            assert(after =~= before + added);
            assert(after.subrange(4 * at, 4 * at + 4) =~= added);
            assert forall|i: int| 0 <= i < at + 1 implies #[trigger] persists_entry(
                after,
                i,
                entries@[i].0@,
                entries@[i].1@,
            ) by {
                if i < at {
                    assert(persists_entry(before, i, entries@[i].0@, entries@[i].1@));
                    let earlier = choose|delimiter: Seq<char>|
                        is_fresh_delimiter(delimiter) && before.subrange(4 * i, 4 * i + 4)
                            == #[trigger] entry_effects(
                            entries@[i].0@,
                            delimiter,
                            entries@[i].1@,
                        );
                    assert(after.subrange(4 * i, 4 * i + 4) =~= before.subrange(4 * i, 4 * i + 4));
                    assert(after.subrange(4 * i, 4 * i + 4) == entry_effects(
                        entries@[i].0@,
                        earlier,
                        entries@[i].1@,
                    ));
                } else {
                    assert(added == entry_effects(name@, drawn, value@));
                }
            }
        }
        at = at + 1;
    }
    r
}

/// A frame is closed by its own last line and by none before it: where no
/// line of the value is the delimiter, and the delimiter is one line, the
/// first line after the opening line that is the delimiter is the line that
/// [`frame_text`] puts behind the value. What is read between the two is
/// then the value, whatever it holds.
pub proof fn lemma_frame_closes_behind_its_value(
    name: Seq<char>,
    delimiter: Seq<char>,
    value: Seq<char>,
)
    requires
        !delimiter.contains('\n'),
        !has_line(value, delimiter),
    ensures
        ({
            let frame = frame_text(name, delimiter, value);
            let opening_ends = (name.len() + 2 + delimiter.len()) as int;
            let value_ends = opening_ends + 1 + value.len();
            &&& frame.subrange(0, opening_ends) == name + "<<"@ + delimiter
            &&& frame.subrange(opening_ends + 1, value_ends) == value
            &&& occurs_at(frame, closing_line(delimiter), value_ends)
            &&& value_ends + closing_line(delimiter).len() == frame.len()
            &&& forall|at: int|
                opening_ends <= at < value_ends ==> !occurs_at(frame, closing_line(delimiter), at)
        }),
{
    reveal_strlit("\n");
    reveal_strlit("<<");
    let frame = frame_text(name, delimiter, value);
    let closing = closing_line(delimiter);
    let opening_ends = (name.len() + 2 + delimiter.len()) as int;
    let value_ends = opening_ends + 1 + value.len();
    let lines = "\n"@ + value + "\n"@;
    assert(frame.subrange(0, opening_ends) =~= name + "<<"@ + delimiter);
    assert(frame.subrange(opening_ends + 1, value_ends) =~= value);
    assert(frame.subrange(value_ends, value_ends + closing.len()) =~= closing);
    assert(frame.subrange(opening_ends, value_ends + 1) =~= lines);
    assert forall|at: int| opening_ends <= at < value_ends implies !occurs_at(
        frame,
        closing,
        at,
    ) by {
        if occurs_at(frame, closing, at) {
            let found = frame.subrange(at, at + closing.len());
            let end = at + closing.len();
            if end <= value_ends + 1 {
                assert(lines.subrange(at - opening_ends, end - opening_ends) =~= found);
                assert(occurs_at(lines, closing, at - opening_ends));
            } else {
                assert(found[closing.len() - 1] == '\n');
                assert(frame[end - 1] == '\n');
                assert(frame[end - 1] == delimiter[end - 2 - value_ends]);
                assert(delimiter.contains('\n'));
            }
        }
    }
}

/// A delimiter is one line of 49 characters without white space.
pub proof fn lemma_delimiter_is_one_word(token: u128)
    ensures
        delimiter_text(token).len() == 49,
        forall|i: int| 0 <= i < 49 ==> !is_whitespace(#[trigger] delimiter_text(token)[i]),
        !delimiter_text(token).contains('\n'),
{
    reveal_strlit("ghadelimiter_");
    assert forall|i: int| 0 <= i < 49 implies !is_whitespace(#[trigger] delimiter_text(token)[i]) by {
        if i >= 13 {
            lemma_hyphenated_alphabet(token, i - 13);
            assert(delimiter_text(token)[i] == hyphenated(token)[i - 13]);
        }
    }
}

} // verus!
