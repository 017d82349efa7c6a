//! The two outputs of the agent protocol: reads and outlines.

use crate::agent::atoms::{
    atom, budget_atom, budget_text, escape_atom, role_atom, role_text, snippet, snippet_text,
};
use crate::agent::refs::{MessageRange, ResolvedConversation};
use crate::agent::render::{
    entries_of, in_range, pointees, range_complaint, range_fits, render_all, selected_messages,
    visible_entries, Entry, ProtocolOptions, RenderedMessage,
};
use crate::agent::select::{
    conversation_line, cut_marker, cut_text, push_conversation_line, push_read_header, read_header,
    render_selected_messages, select_for_budget, selection, selection_text, ProtocolFocus,
};
use crate::agent::transcript::AgentTranscript;
use crate::error::{AppError, Result};
use crate::text::{decimal, decimal_string, push_decimal, texts};
use vstd::prelude::*;
use vstd::string::*;

verus! {

/// How many messages an outline lists one by one.
pub const OUTLINE_SHORT_MESSAGE_LIMIT: usize = 20;

/// How many messages go into one segment of a longer outline.
pub const OUTLINE_SEGMENT_SIZE: usize = 10;

/// The part of a conversation that a read asks for.
#[derive(Clone, Debug)]
pub struct ReadRequest<'a> {
    pub resolved: &'a ResolvedConversation,
    pub transcript: &'a AgentTranscript,
    /// The messages asked for; all of them where absent.
    pub range: Option<MessageRange>,
}

/// Whether a request asks for messages that its transcript has.
pub open spec fn request_fits(request: ReadRequest<'_>) -> bool {
    range_fits(*request.transcript, request.range)
}

/// The entries that a request asks for.
pub open spec fn request_entries(request: ReadRequest<'_>, options: ProtocolOptions) -> Seq<Entry> {
    visible_entries(
        *request.resolved,
        in_range(request.transcript.messages@, request.range),
        options,
    )
}

/// The entries that a list of requests asks for, in order.
pub open spec fn read_entries(requests: Seq<ReadRequest<'_>>, options: ProtocolOptions) -> Seq<
    Entry,
>
    decreases requests.len(),
{
    if requests.len() == 0 {
        seq![]
    } else {
        read_entries(requests.drop_last(), options) + request_entries(requests.last(), options)
    }
}

/// The output of a read that shows the selected ones of its entries.
pub open spec fn read_output(entries: Seq<Entry>, selected: Seq<usize>, budget: Option<usize>) -> Seq<
    char,
> {
    read_header(atom(cut_text(entries.len(), selected)), budget_text(budget)) + selection_text(
        entries,
        selected,
    )
}

/// Whether a request is the first of a list that asks for messages its transcript lacks.
pub open spec fn first_misfit(requests: Seq<ReadRequest<'_>>, i: int) -> bool {
    &&& 0 <= i < requests.len()
    &&& !request_fits(requests[i])
    &&& forall|j: int| 0 <= j < i ==> request_fits(#[trigger] requests[j])
}

/// Formats the messages that a list of requests asks for, within the budget.
pub fn format_read(
    requests: &[ReadRequest<'_>],
    focus: Option<ProtocolFocus>,
    options: ProtocolOptions,
) -> (output: Result<String>)
    ensures
        forall|i: int| #[trigger]
            first_misfit(requests@, i) ==> (output matches Err(AppError::ConfigError(text)) && text@
                == range_complaint(
                requests@[i].range->0,
                requests@[i].transcript.messages@.len(),
            )),
        (forall|i: int| 0 <= i < requests@.len() ==> request_fits(#[trigger] requests@[i])) ==> ({
            let entries = read_entries(requests@, options);
            match selection(entries, focus, options.budget) {
                Ok(selected) => output matches Ok(text) && text@ == read_output(
                    entries,
                    selected,
                    options.budget,
                ),
                Err(complaint) => output matches Err(AppError::ConfigError(text)) && text@
                    == complaint,
            }
        }),
{
    let mut messages: Vec<RenderedMessage<'_>> = Vec::new();
    let mut i: usize = 0;
    assert(entries_of(messages@) =~= read_entries(requests@.take(0), options));
    while i < requests.len()
        invariant
            i <= requests@.len(),
            forall|j: int| 0 <= j < i ==> request_fits(#[trigger] requests@[j]),
            entries_of(messages@) == read_entries(requests@.take(i as int), options),
        decreases requests@.len() - i,
    {
        assert(requests@.take(i + 1).drop_last() =~= requests@.take(i as int));
        let request = &requests[i];
        assert(*request == requests@[i as int]);
        match selected_messages(request.transcript, request.range) {
            Ok(selected) => {
                render_all(&mut messages, request.resolved, &selected, options);
            },
            Err(error) => {
                assert(first_misfit(requests@, i as int));
                assert forall|k: int| #[trigger] first_misfit(requests@, k) implies k == i by {
                    if k < i {
                        assert(request_fits(requests@[k]));
                    }
                }
                return Err(error);
            },
        }
        i = i + 1;
    }
    assert(requests@.take(requests@.len() as int) =~= requests@);
    let ghost entries = entries_of(messages@);
    let selected = match select_for_budget(&messages, &focus, options.budget) {
        Ok(selected) => selected,
        Err(error) => {
            return Err(error);
        },
    };
    let cut = escape_atom(cut_marker(messages.len(), &selected));
    let budget = budget_atom(options.budget);
    let mut output = String::new();
    push_read_header(&mut output, cut.as_str(), budget.as_str());
    let mut last_ref: Option<String> = None;
    render_selected_messages(&mut output, &messages, &selected, &mut last_ref);
    assert(output@ =~= read_output(entries, selected@, options.budget));
    Ok(output)
}

/// The first line of an outline.
pub open spec fn outline_header(cut: Seq<char>, budget: Seq<char>) -> Seq<char> {
    "protocol agent-outline v=1 cut="@ + cut + " budget="@ + budget + "\n"@
}

/// The outline of one message.
pub open spec fn outline_line(entry: Entry) -> Seq<char> {
    "m"@ + decimal(entry.ordinal as nat) + " role="@ + role_text(entry.role) + " c~"@ + decimal(
        entry.body.len(),
    ) + " "@ + snippet_text(entry.body) + "\n"@
}

/// How many characters the bodies of a list of entries have together.
pub open spec fn body_chars(entries: Seq<Entry>) -> nat
    decreases entries.len(),
{
    if entries.len() == 0 {
        0
    } else {
        body_chars(entries.drop_last()) + entries.last().body.len()
    }
}

/// The outline of a segment: its first and last message.
pub open spec fn segment_line(segment: Seq<Entry>) -> Seq<char> {
    "seg m"@ + decimal(segment.first().ordinal as nat) + "..m"@ + decimal(
        segment.last().ordinal as nat,
    ) + " c~"@ + decimal(body_chars(segment)) + " "@ + snippet_text(segment.first().body) + " / "@
        + snippet_text(segment.last().body) + "\n"@
}

/// The outlines of the segments that a list of entries falls into.
pub open spec fn segment_lines(entries: Seq<Entry>) -> Seq<Seq<char>>
    decreases entries.len(),
{
    if entries.len() == 0 {
        seq![]
    } else if entries.len() <= OUTLINE_SEGMENT_SIZE {
        seq![segment_line(entries)]
    } else {
        seq![segment_line(entries.take(OUTLINE_SEGMENT_SIZE as int))] + segment_lines(
            entries.skip(OUTLINE_SEGMENT_SIZE as int),
        )
    }
}

/// The lines of an outline behind its header: the conversation, then its messages one by one, or
/// in segments where they are many.
pub open spec fn outline_lines(resolved: ResolvedConversation, entries: Seq<Entry>) -> Seq<
    Seq<char>,
> {
    seq![
        conversation_line(
            resolved.reference.uuid@,
            resolved.reference.canonical@,
            resolved.key.session_filename@,
        ),
    ] + if entries.len() <= OUTLINE_SHORT_MESSAGE_LIMIT {
        Seq::new(entries.len(), |i: int| outline_line(entries[i]))
    } else {
        segment_lines(entries)
    }
}

/// Lines one after the other.
pub open spec fn concat(lines: Seq<Seq<char>>) -> Seq<char>
    decreases lines.len(),
{
    if lines.len() == 0 {
        seq![]
    } else {
        concat(lines.drop_last()) + lines.last()
    }
}

/// How many of a list of lines have room, from the first on.
pub open spec fn fitting(lines: Seq<Seq<char>>, room: int) -> nat
    decreases lines.len(),
{
    if lines.len() == 0 || lines[0].len() > room {
        0
    } else {
        1 + fitting(lines.skip(1), room - lines[0].len())
    }
}

/// An outline, cut behind the last line that has room where the budget is too small for all.
pub open spec fn outline_output(lines: Seq<Seq<char>>, budget: Option<usize>) -> Seq<char> {
    let full = outline_header("none"@, budget_text(budget)) + concat(lines);
    match budget {
        Some(budget) => if full.len() > budget {
            let header = outline_header("tail"@, decimal(budget as nat));
            header + concat(lines.take(fitting(lines, budget - header.len()) as int))
        } else {
            full
        },
        None => full,
    }
}

/// Appends the first line of an outline.
fn push_outline_header(output: &mut String, cut: &str, budget: &str)
    ensures
        final(output)@ == old(output)@ + outline_header(cut@, budget@),
{
    output.append("protocol agent-outline v=1 cut=");
    output.append(cut);
    output.append(" budget=");
    output.append(budget);
    output.append("\n");
    assert(output@ =~= old(output)@ + outline_header(cut@, budget@));
}

/// The outline of one message.
fn format_outline_line(rendered: &RenderedMessage<'_>) -> (line: String)
    ensures
        line@ == outline_line(rendered@),
{
    let mut line = String::new();
    line.append("m");
    push_decimal(&mut line, rendered.message.ordinal as u128);
    line.append(" role=");
    line.append(role_atom(rendered.message.role));
    line.append(" c~");
    push_decimal(&mut line, rendered.body.as_str().unicode_len() as u128);
    line.append(" ");
    line.append(snippet(rendered.body.as_str()).as_str());
    line.append("\n");
    assert(line@ =~= outline_line(rendered@));
    line
}

/// The outline of the segment from one message up to another.
fn format_segment_line(messages: &Vec<RenderedMessage<'_>>, from: usize, to: usize) -> (line:
    String)
    requires
        from < to <= messages@.len(),
        to - from <= OUTLINE_SEGMENT_SIZE,
    ensures
        line@ == segment_line(entries_of(messages@).subrange(from as int, to as int)),
{
    let ghost entries = entries_of(messages@);
    let ghost segment = entries.subrange(from as int, to as int);
    let mut count: u128 = 0;
    let mut i: usize = from;
    while i < to
        invariant
            from <= i <= to <= messages@.len(),
            to - from <= OUTLINE_SEGMENT_SIZE,
            entries == entries_of(messages@),
            count == body_chars(entries.subrange(from as int, i as int)),
            count <= (i - from) * usize::MAX,
        decreases to - i,
    {
        assert(entries.subrange(from as int, i + 1).drop_last() =~= entries.subrange(
            from as int,
            i as int,
        ));
        let chars = messages[i].body.as_str().unicode_len();
        assert((i - from) * usize::MAX + usize::MAX == (i + 1 - from) * usize::MAX)
            by (nonlinear_arith);
        assert((i + 1 - from) * usize::MAX <= 10 * usize::MAX) by (nonlinear_arith)
            requires
                i + 1 - from <= 10,
        ;
        count = count + chars as u128;
        i = i + 1;
    }
    let first = &messages[from];
    let last = &messages[to - 1];
    let mut line = String::new();
    line.append("seg m");
    push_decimal(&mut line, first.message.ordinal as u128);
    line.append("..m");
    push_decimal(&mut line, last.message.ordinal as u128);
    line.append(" c~");
    push_decimal(&mut line, count);
    line.append(" ");
    line.append(snippet(first.body.as_str()).as_str());
    line.append(" / ");
    line.append(snippet(last.body.as_str()).as_str());
    line.append("\n");
    assert(segment.first() == first@ && segment.last() == last@);
    assert(line@ =~= segment_line(segment));
    line
}

/// The lines of an outline behind its header.
fn format_outline_lines(resolved: &ResolvedConversation, messages: &Vec<RenderedMessage<'_>>) -> (lines:
    Vec<String>)
    ensures
        texts(lines@) == outline_lines(*resolved, entries_of(messages@)),
{
    let ghost entries = entries_of(messages@);
    let mut opening = String::new();
    push_conversation_line(
        &mut opening,
        resolved.reference.uuid.as_str(),
        resolved.reference.canonical.as_str(),
        resolved.key.session_filename.as_str(),
    );
    let ghost first = opening@;
    assert(first =~= conversation_line(
        resolved.reference.uuid@,
        resolved.reference.canonical@,
        resolved.key.session_filename@,
    ));
    let mut lines: Vec<String> = Vec::new();
    lines.push(opening);
    if messages.len() <= OUTLINE_SHORT_MESSAGE_LIMIT {
        let mut i: usize = 0;
        while i < messages.len()
            invariant
                i <= messages@.len(),
                entries == entries_of(messages@),
                lines@.len() == i + 1,
                lines@[0]@ == first,
                forall|j: int|
                    1 <= j <= i ==> (#[trigger] lines@[j])@ == outline_line(entries[j - 1]),
            decreases messages@.len() - i,
        {
            lines.push(format_outline_line(&messages[i]));
            i = i + 1;
        }
        assert(texts(lines@) =~= seq![first] + Seq::new(
            entries.len(),
            |j: int| outline_line(entries[j]),
        ));
    } else {
        let mut from: usize = 0;
        assert(entries.skip(0) =~= entries);
        assert(texts(lines@) =~= seq![first]);
        while from < messages.len()
            invariant
                from <= messages@.len(),
                entries == entries_of(messages@),
                seq![first] + segment_lines(entries) == texts(lines@) + segment_lines(
                    entries.skip(from as int),
                ),
            decreases messages@.len() - from,
        {
            let to: usize = if messages.len() - from <= OUTLINE_SEGMENT_SIZE {
                messages.len()
            } else {
                from + OUTLINE_SEGMENT_SIZE
            };
            let ghost rest = entries.skip(from as int);
            let ghost before = texts(lines@);
            let line = format_segment_line(messages, from, to);
            let ghost text = line@;
            lines.push(line);
            assert(texts(lines@) =~= before.push(text));
            if to == messages.len() {
                assert(entries.subrange(from as int, to as int) =~= rest);
            } else {
                assert(entries.subrange(from as int, to as int) =~= rest.take(
                    OUTLINE_SEGMENT_SIZE as int,
                ));
            }
            assert(to - from < rest.len() ==> rest.skip(OUTLINE_SEGMENT_SIZE as int)
                =~= entries.skip(to as int));
            assert(segment_lines(rest) =~= seq![text] + segment_lines(entries.skip(to as int)));
            assert(texts(lines@) + segment_lines(entries.skip(to as int)) =~= before
                + segment_lines(rest));
            from = to;
        }
        assert(texts(lines@) + segment_lines(entries.skip(from as int)) =~= texts(lines@));
    }
    lines
}

/// Appends lines from the first on.
fn push_lines(output: &mut String, lines: &Vec<String>)
    ensures
        final(output)@ == old(output)@ + concat(texts(lines@)),
{
    let ghost all = texts(lines@);
    let ghost start = output@;
    let mut i: usize = 0;
    assert(start + concat(all.take(0)) =~= start);
    while i < lines.len()
        invariant
            i <= lines@.len(),
            all == texts(lines@),
            output@ == start + concat(all.take(i as int)),
        decreases lines@.len() - i,
    {
        assert(all.take(i + 1).drop_last() =~= all.take(i as int));
        output.append(lines[i].as_str());
        assert(output@ =~= start + concat(all.take(i + 1)));
        i = i + 1;
    }
    assert(all.take(all.len() as int) =~= all);
}

/// Appends lines from the first on, as long as the output stays within the budget.
fn push_fitting_lines(output: &mut String, lines: &Vec<String>, budget: usize)
    ensures
        final(output)@ == old(output)@ + concat(
            texts(lines@).take(
                fitting(texts(lines@), budget - old(output)@.len()) as int,
            ),
        ),
{
    let ghost all = texts(lines@);
    let ghost start = output@;
    let ghost total = fitting(all, budget - start.len());
    let mut i: usize = 0;
    assert(start + concat(all.take(0)) =~= start);
    assert(all.skip(0) =~= all);
    while i < lines.len()
        invariant
            i <= lines@.len(),
            all == texts(lines@),
            start == old(output)@,
            total == fitting(all, budget - start.len()),
            output@ == start + concat(all.take(i as int)),
            total == i + fitting(all.skip(i as int), budget - output@.len()),
        decreases lines@.len() - i,
    {
        let ghost rest = all.skip(i as int);
        assert(rest[0] == lines@[i as int]@);
        let used = output.as_str().unicode_len();
        let needed = lines[i].as_str().unicode_len();
        if used > budget || needed > budget - used {
            return ;
        }
        assert(all.take(i + 1).drop_last() =~= all.take(i as int));
        output.append(lines[i].as_str());
        assert(rest.skip(1) =~= all.skip(i + 1));
        assert(output@ =~= start + concat(all.take(i + 1)));
        i = i + 1;
    }
}

/// Formats an outline of a conversation, within the budget.
pub fn format_outline(
    resolved: &ResolvedConversation,
    transcript: &AgentTranscript,
    options: ProtocolOptions,
) -> (output: String)
    ensures
        output@ == outline_output(
            outline_lines(
                *resolved,
                visible_entries(*resolved, transcript.messages@, options),
            ),
            options.budget,
        ),
{
    let mut all = Vec::new();
    let mut i: usize = 0;
    while i < transcript.messages.len()
        invariant
            i <= transcript.messages@.len(),
            pointees(all@) == transcript.messages@.take(i as int),
        decreases transcript.messages@.len() - i,
    {
        let ghost before = pointees(all@);
        let message = &transcript.messages[i];
        all.push(message);
        assert(pointees(all@) =~= before.push(*message));
        i = i + 1;
        assert(pointees(all@) =~= transcript.messages@.take(i as int));
    }
    assert(pointees(all@) =~= transcript.messages@);
    let mut messages: Vec<RenderedMessage<'_>> = Vec::new();
    render_all(&mut messages, resolved, &all, options);
    let ghost entries = visible_entries(*resolved, transcript.messages@, options);
    assert(entries_of(messages@) =~= entries);
    let lines = format_outline_lines(resolved, &messages);
    let mut output = String::new();
    push_outline_header(&mut output, "none", budget_atom(options.budget).as_str());
    push_lines(&mut output, &lines);
    if let Some(budget) = options.budget {
        if output.as_str().unicode_len() > budget {
            let mut truncated = String::new();
            push_outline_header(&mut truncated, "tail", decimal_string(budget).as_str());
            assert(truncated@ =~= outline_header("tail"@, decimal(budget as nat)));
            push_fitting_lines(&mut truncated, &lines, budget);
            return truncated;
        }
    }
    output
}

} // verus!
