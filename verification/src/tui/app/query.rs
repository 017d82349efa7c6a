//! Editing the query.

use crate::text::{from_chars, to_chars};
use crate::tui::app::state::App;
use vstd::prelude::*;
use vstd::string::*;

verus! {

/// A query with its cursor.
pub struct Query {
    pub text: Seq<char>,
    pub cursor: int,
}

/// Whether a character parts words.
pub open spec fn separates(separators: Seq<char>, c: char) -> bool {
    separators.contains(c)
}

/// The place of the cursor, or the end of the text where the cursor stands behind it.
pub open spec fn place(query: Query) -> int {
    if query.cursor <= query.text.len() {
        query.cursor
    } else {
        query.text.len() as int
    }
}

/// The start of the run before a position whose characters all part words, or all do not.
pub open spec fn run_start(text: Seq<char>, separators: Seq<char>, at: int, parting: bool) -> int
    decreases at,
{
    if 0 < at && separates(separators, text[at - 1]) == parting {
        run_start(text, separators, at - 1, parting)
    } else {
        at
    }
}

/// The end of the run behind a position whose characters all part words, or all do not.
pub open spec fn run_end(text: Seq<char>, separators: Seq<char>, at: int, parting: bool) -> int
    decreases text.len() - at,
{
    if at < text.len() && separates(separators, text[at]) == parting {
        run_end(text, separators, at + 1, parting)
    } else {
        at
    }
}

/// The start of the word before a position: separators are skipped first.
pub open spec fn word_left(text: Seq<char>, separators: Seq<char>, at: int) -> int {
    run_start(text, separators, run_start(text, separators, at, true), false)
}

/// The start of the word behind a position: the rest of the current word is skipped first.
pub open spec fn word_right(text: Seq<char>, separators: Seq<char>, at: int) -> int {
    run_end(text, separators, run_end(text, separators, at, false), true)
}

/// An edit of the query.
#[derive(Clone, Copy, Debug, PartialEq, Eq, Structural)]
pub enum Edit {
    Left,
    Right,
    Home,
    End,
    WordLeft,
    WordRight,
    KillToEnd,
    KillToStart,
    DeleteWord,
    Insert(char),
    Backspace,
    Delete,
}

/// A query after an edit.
pub open spec fn edited(query: Query, edit: Edit, separators: Seq<char>) -> Query {
    let text = query.text;
    let cursor = query.cursor;
    let at = place(query);
    match edit {
        Edit::Left => Query {
            text,
            cursor: if cursor > 0 {
                cursor - 1
            } else {
                cursor
            },
        },
        Edit::Right => Query {
            text,
            cursor: if cursor < text.len() {
                cursor + 1
            } else {
                cursor
            },
        },
        Edit::Home => Query { text, cursor: 0 },
        Edit::End => Query { text, cursor: text.len() as int },
        Edit::WordLeft => Query { text, cursor: word_left(text, separators, at) },
        Edit::WordRight => Query { text, cursor: word_right(text, separators, at) },
        Edit::KillToEnd => Query { text: text.take(at), cursor },
        Edit::KillToStart => Query { text: text.skip(at), cursor: 0 },
        Edit::DeleteWord => if at == 0 {
            query
        } else {
            let from = word_left(text, separators, at);
            Query { text: text.take(from) + text.skip(at), cursor: from }
        },
        Edit::Insert(c) => Query { text: text.take(at).push(c) + text.skip(at), cursor: cursor + 1 },
        Edit::Backspace => if 0 < cursor <= text.len() {
            Query { text: text.remove(cursor - 1), cursor: cursor - 1 }
        } else {
            query
        },
        Edit::Delete => if cursor < text.len() {
            Query { text: text.remove(cursor), cursor }
        } else {
            query
        },
    }
}

/// Whether an edit changes the text of a query.
pub open spec fn changes_text(query: Query, edit: Edit) -> bool {
    match edit {
        Edit::Left | Edit::Right | Edit::Home | Edit::End | Edit::WordLeft | Edit::WordRight => false,
        Edit::KillToEnd => query.cursor < query.text.len(),
        Edit::KillToStart => query.cursor > 0,
        Edit::DeleteWord => place(query) > 0,
        Edit::Insert(_) => true,
        Edit::Backspace => 0 < query.cursor <= query.text.len(),
        Edit::Delete => query.cursor < query.text.len(),
    }
}

/// The query of the interface.
pub open spec fn query_of(app: App) -> Query {
    Query { text: app.query@, cursor: app.cursor_pos as int }
}

/// Whether two states differ in the query at most.
pub open spec fn same_but_query(a: App, b: App) -> bool {
    b == (App { query: b.query, cursor_pos: b.cursor_pos, ..a })
}

proof fn lemma_run_start(text: Seq<char>, separators: Seq<char>, at: int, parting: bool)
    requires
        0 <= at <= text.len(),
    ensures
        0 <= run_start(text, separators, at, parting) <= at,
    decreases at,
{
    if 0 < at && separates(separators, text[at - 1]) == parting {
        lemma_run_start(text, separators, at - 1, parting);
    }
}

proof fn lemma_run_end(text: Seq<char>, separators: Seq<char>, at: int, parting: bool)
    requires
        0 <= at <= text.len(),
    ensures
        at <= run_end(text, separators, at, parting) <= text.len(),
    decreases text.len() - at,
{
    if at < text.len() && separates(separators, text[at]) == parting {
        lemma_run_end(text, separators, at + 1, parting);
    }
}

/// The words around any position of a text start within it.
pub proof fn lemma_words_around(text: Seq<char>, separators: Seq<char>, at: int)
    requires
        0 <= at <= text.len(),
    ensures
        0 <= word_left(text, separators, at) <= at,
        at > 0 ==> word_left(text, separators, at) < at,
        at <= word_right(text, separators, at) <= text.len(),
{
    lemma_run_start(text, separators, at, true);
    lemma_run_start(text, separators, run_start(text, separators, at, true), false);
    lemma_run_end(text, separators, at, false);
    lemma_run_end(text, separators, run_end(text, separators, at, false), true);
    if at > 0 {
        let skipped = run_start(text, separators, at, true);
        if separates(separators, text[at - 1]) {
            lemma_run_start(text, separators, at - 1, true);
            assert(skipped <= at - 1);
        } else {
            assert(skipped == at);
            lemma_run_start(text, separators, at - 1, false);
        }
    }
}

fn find_run_start(chars: &Vec<char>, separators: &Vec<char>, from: usize, parting: bool) -> (at:
    usize)
    requires
        from <= chars@.len(),
    ensures
        at == run_start(chars@, separators@, from as int, parting),
        at <= from,
{
    let mut at: usize = from;
    while at > 0 && is_separator(separators, chars[at - 1]) == parting
        invariant
            at <= from <= chars@.len(),
            run_start(chars@, separators@, at as int, parting) == run_start(
                chars@,
                separators@,
                from as int,
                parting,
            ),
        decreases at,
    {
        at = at - 1;
    }
    at
}

fn find_run_end(chars: &Vec<char>, separators: &Vec<char>, from: usize, parting: bool) -> (at:
    usize)
    requires
        from <= chars@.len(),
    ensures
        at == run_end(chars@, separators@, from as int, parting),
        from <= at <= chars@.len(),
{
    let mut at: usize = from;
    while at < chars.len() && is_separator(separators, chars[at]) == parting
        invariant
            from <= at <= chars@.len(),
            run_end(chars@, separators@, at as int, parting) == run_end(
                chars@,
                separators@,
                from as int,
                parting,
            ),
        decreases chars@.len() - at,
    {
        at = at + 1;
    }
    at
}

/// Whether a character parts words.
fn is_separator(separators: &Vec<char>, c: char) -> (r: bool)
    ensures
        r == separates(separators@, c),
{
    let mut i: usize = 0;
    while i < separators.len()
        invariant
            i <= separators@.len(),
            forall|j: int| 0 <= j < i ==> separators@[j] != c,
        decreases separators@.len() - i,
    {
        if separators[i] == c {
            return true;
        }
        i = i + 1;
    }
    false
}

/// The characters of a list but those of one run.
fn without_run(chars: &Vec<char>, from: usize, to: usize) -> (text: String)
    requires
        from <= to <= chars@.len(),
    ensures
        text@ == chars@.take(from as int) + chars@.skip(to as int),
{
    let mut text = from_chars(chars, 0, from);
    let rest = from_chars(chars, to, chars.len());
    text.append(rest.as_str());
    assert(text@ =~= chars@.take(from as int) + chars@.skip(to as int));
    text
}

impl App {
    pub fn cursor_left(&mut self)
        ensures
            query_of(*final(self)) == edited(
                query_of(*old(self)),
                Edit::Left,
                old(self).word_separators@,
            ),
            same_but_query(*old(self), *final(self)),
    {
        if self.cursor_pos > 0 {
            self.cursor_pos = self.cursor_pos - 1;
        }
    }

    pub fn cursor_right(&mut self)
        ensures
            query_of(*final(self)) == edited(
                query_of(*old(self)),
                Edit::Right,
                old(self).word_separators@,
            ),
            same_but_query(*old(self), *final(self)),
    {
        let len = self.query.as_str().unicode_len();
        if self.cursor_pos < len {
            self.cursor_pos = self.cursor_pos + 1;
        }
    }

    pub fn cursor_home(&mut self)
        ensures
            query_of(*final(self)) == edited(
                query_of(*old(self)),
                Edit::Home,
                old(self).word_separators@,
            ),
            same_but_query(*old(self), *final(self)),
    {
        self.cursor_pos = 0;
    }

    pub fn cursor_end(&mut self)
        ensures
            query_of(*final(self)) == edited(
                query_of(*old(self)),
                Edit::End,
                old(self).word_separators@,
            ),
            same_but_query(*old(self), *final(self)),
    {
        self.cursor_pos = self.query.as_str().unicode_len();
    }

    pub fn cursor_word_left(&mut self)
        ensures
            query_of(*final(self)) == edited(
                query_of(*old(self)),
                Edit::WordLeft,
                old(self).word_separators@,
            ),
            same_but_query(*old(self), *final(self)),
    {
        let chars = to_chars(self.query.as_str());
        let at = if self.cursor_pos <= chars.len() {
            self.cursor_pos
        } else {
            chars.len()
        };
        let word = find_run_start(&chars, &self.word_separators, at, true);
        self.cursor_pos = find_run_start(&chars, &self.word_separators, word, false);
    }

    pub fn cursor_word_right(&mut self)
        ensures
            query_of(*final(self)) == edited(
                query_of(*old(self)),
                Edit::WordRight,
                old(self).word_separators@,
            ),
            same_but_query(*old(self), *final(self)),
    {
        let chars = to_chars(self.query.as_str());
        let at = if self.cursor_pos <= chars.len() {
            self.cursor_pos
        } else {
            chars.len()
        };
        let word = find_run_end(&chars, &self.word_separators, at, false);
        self.cursor_pos = find_run_end(&chars, &self.word_separators, word, true);
    }

    pub fn kill_to_end(&mut self) -> (changed: bool)
        ensures
            query_of(*final(self)) == edited(
                query_of(*old(self)),
                Edit::KillToEnd,
                old(self).word_separators@,
            ),
            changed == changes_text(query_of(*old(self)), Edit::KillToEnd),
            same_but_query(*old(self), *final(self)),
    {
        let chars = to_chars(self.query.as_str());
        if self.cursor_pos >= chars.len() {
            assert(self.query@.take(self.query@.len() as int) =~= self.query@);
            return false;
        }
        self.query = from_chars(&chars, 0, self.cursor_pos);
        assert(self.query@ =~= old(self).query@.take(old(self).cursor_pos as int));
        true
    }

    pub fn kill_to_start(&mut self) -> (changed: bool)
        ensures
            query_of(*final(self)) == edited(
                query_of(*old(self)),
                Edit::KillToStart,
                old(self).word_separators@,
            ),
            changed == changes_text(query_of(*old(self)), Edit::KillToStart),
            same_but_query(*old(self), *final(self)),
    {
        if self.cursor_pos == 0 {
            assert(self.query@.skip(0) =~= self.query@);
            return false;
        }
        let chars = to_chars(self.query.as_str());
        let at = if self.cursor_pos <= chars.len() {
            self.cursor_pos
        } else {
            chars.len()
        };
        self.query = from_chars(&chars, at, chars.len());
        assert(self.query@ =~= old(self).query@.skip(at as int));
        self.cursor_pos = 0;
        true
    }

    pub fn delete_word_backwards(&mut self) -> (changed: bool)
        ensures
            query_of(*final(self)) == edited(
                query_of(*old(self)),
                Edit::DeleteWord,
                old(self).word_separators@,
            ),
            changed == changes_text(query_of(*old(self)), Edit::DeleteWord),
            same_but_query(*old(self), *final(self)),
    {
        let chars = to_chars(self.query.as_str());
        let cursor = if self.cursor_pos <= chars.len() {
            self.cursor_pos
        } else {
            chars.len()
        };
        if cursor == 0 {
            return false;
        }
        let word = find_run_start(&chars, &self.word_separators, cursor, true);
        let from = find_run_start(&chars, &self.word_separators, word, false);
        self.query = without_run(&chars, from, cursor);
        self.cursor_pos = from;
        true
    }

    pub fn insert_query_char(&mut self, c: char)
        requires
            old(self).cursor_pos < usize::MAX,
        ensures
            query_of(*final(self)) == edited(
                query_of(*old(self)),
                Edit::Insert(c),
                old(self).word_separators@,
            ),
            same_but_query(*old(self), *final(self)),
    {
        let chars = to_chars(self.query.as_str());
        let at = if self.cursor_pos <= chars.len() {
            self.cursor_pos
        } else {
            chars.len()
        };
        let mut text = from_chars(&chars, 0, at);
        text.push(c);
        let rest = from_chars(&chars, at, chars.len());
        text.append(rest.as_str());
        assert(text@ =~= old(self).query@.take(at as int).push(c) + old(self).query@.skip(
            at as int,
        ));
        self.query = text;
        self.cursor_pos = self.cursor_pos + 1;
    }

    pub fn backspace_query(&mut self) -> (changed: bool)
        ensures
            query_of(*final(self)) == edited(
                query_of(*old(self)),
                Edit::Backspace,
                old(self).word_separators@,
            ),
            changed == changes_text(query_of(*old(self)), Edit::Backspace),
            same_but_query(*old(self), *final(self)),
    {
        let chars = to_chars(self.query.as_str());
        if self.cursor_pos > 0 && self.cursor_pos <= chars.len() {
            let at = self.cursor_pos - 1;
            self.query = without_run(&chars, at, self.cursor_pos);
            assert(self.query@ =~= old(self).query@.remove(at as int));
            self.cursor_pos = at;
            return true;
        }
        false
    }

    pub fn delete_query_char(&mut self) -> (changed: bool)
        ensures
            query_of(*final(self)) == edited(
                query_of(*old(self)),
                Edit::Delete,
                old(self).word_separators@,
            ),
            changed == changes_text(query_of(*old(self)), Edit::Delete),
            same_but_query(*old(self), *final(self)),
    {
        let chars = to_chars(self.query.as_str());
        if self.cursor_pos < chars.len() {
            self.query = without_run(&chars, self.cursor_pos, self.cursor_pos + 1);
            assert(self.query@ =~= old(self).query@.remove(old(self).cursor_pos as int));
            return true;
        }
        false
    }
}

} // verus!
