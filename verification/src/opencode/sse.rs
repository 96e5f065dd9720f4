//! The stream of server-sent events.

use vstd::prelude::*;

use crate::bytes;
use crate::bytes::lossy_text;
use crate::lines;
use crate::lines::split_lines;
use crate::text;
use crate::text::{chars_of, extend, find_text, piece, starts_with, string_between};

verus! {

broadcast use vstd::string::group_string_axioms;

/// What separates events: a blank line.
pub open spec fn event_end() -> Seq<char> {
    seq!['\n', '\n']
}

/// What a line of an event carries, if it is a data line.
pub open spec fn line_data(line: Seq<char>) -> Option<Seq<char>> {
    if text::has_prefix(line, "data: "@) {
        Some(line.skip("data: "@.len() as int))
    } else {
        None
    }
}

/// What the data lines among `ls` carry, in order.
pub open spec fn data_of(ls: Seq<Seq<char>>) -> Seq<Seq<char>>
    decreases ls.len(),
{
    if ls.len() == 0 {
        Seq::empty()
    } else {
        match line_data(ls[0]) {
            Some(data) => seq![data] + data_of(ls.skip(1)),
            None => data_of(ls.skip(1)),
        }
    }
}

/// The data in the complete events of a text: those that a blank line ends.
pub open spec fn complete_data(s: Seq<char>) -> Seq<Seq<char>>
    decreases s.len(),
    via complete_decreases
{
    match text::first_match(s, event_end()) {
        Some(k) => data_of(lines::lines(s.take(k))) + complete_data(s.skip(k + 2)),
        None => Seq::empty(),
    }
}

/// What is left of a text after its last complete event.
pub open spec fn unfinished(s: Seq<char>) -> Seq<char>
    decreases s.len(),
    via unfinished_decreases
{
    match text::first_match(s, event_end()) {
        Some(k) => unfinished(s.skip(k + 2)),
        None => s,
    }
}

#[via_fn]
proof fn complete_decreases(s: Seq<char>) {
    text::lemma_first_match(s, event_end());
}

#[via_fn]
proof fn unfinished_decreases(s: Seq<char>) {
    text::lemma_first_match(s, event_end());
}

proof fn lemma_prefix_of_longer(a: Seq<char>, b: Seq<char>, p: Seq<char>)
    requires
        p.len() <= a.len(),
    ensures
        text::has_prefix(a + b, p) == text::has_prefix(a, p),
{
    assert((a + b).take(p.len() as int) =~= a.take(p.len() as int));
}

proof fn lemma_first_match_of_longer(a: Seq<char>, b: Seq<char>)
    requires
        text::first_match(a, event_end()) is Some,
    ensures
        text::first_match(a + b, event_end()) == text::first_match(a, event_end()),
    decreases a.len(),
{
    let p = event_end();
    text::lemma_first_match(a, p);
    lemma_prefix_of_longer(a, b, p);
    if !text::has_prefix(a, p) {
        assert((a + b).skip(1) =~= a.skip(1) + b);
        lemma_first_match_of_longer(a.skip(1), b);
    }
}

/// However the text of the stream is cut into chunks, the same data comes out: what a first chunk
/// holds, and what the rest holds behind what the first left unfinished, is what the whole holds.
pub proof fn law_chunking_changes_nothing(a: Seq<char>, b: Seq<char>)
    ensures
        complete_data(a + b) == complete_data(a) + complete_data(unfinished(a) + b),
        unfinished(a + b) == unfinished(unfinished(a) + b),
    decreases a.len(),
{
    let p = event_end();
    match text::first_match(a, p) {
        Some(k) => {
            text::lemma_first_match(a, p);
            lemma_first_match_of_longer(a, b);
            assert((a + b).take(k) =~= a.take(k));
            assert((a + b).skip(k + 2) =~= a.skip(k + 2) + b);
            law_chunking_changes_nothing(a.skip(k + 2), b);
            let head = data_of(lines::lines(a.take(k)));
            assert(head + (complete_data(a.skip(k + 2)) + complete_data(unfinished(a) + b)) =~= (head
                + complete_data(a.skip(k + 2))) + complete_data(unfinished(a) + b));
        },
        None => {
            assert(Seq::<Seq<char>>::empty() + complete_data(a + b) =~= complete_data(a + b));
        },
    }
}

/// An event is reported when its blank line arrives, and what it carries is each of its data
/// lines.
pub proof fn law_event_is_reported(event: Seq<char>, rest: Seq<char>)
    requires
        text::first_match(event + event_end(), event_end()) == Some(event.len() as int),
    ensures
        complete_data(event + event_end() + rest) == data_of(lines::lines(event)) + complete_data(
            rest,
        ),
{
    let a = event + event_end();
    lemma_first_match_of_longer(a, rest);
    assert((a + rest).take(event.len() as int) =~= event);
    assert((a + rest).skip(event.len() as int + 2) =~= rest);
}

/// The text received and not yet taken apart.
pub struct EventBuffer {
    pub text: Vec<char>,
}

impl View for EventBuffer {
    type V = Seq<char>;

    open spec fn view(&self) -> Seq<char> {
        self.text@
    }
}

fn push_data(out: &mut Vec<String>, event: &Vec<char>)
    ensures
        text::strings(final(out)@) == text::strings(old(out)@) + data_of(lines::lines(event@)),
{
    let ls = split_lines(event);
    let ghost all = lines::lines(event@);
    let ghost start = text::strings(out@);
    let name = chars_of("data: ");
    let mut i: usize = 0;
    proof {
        assert(all.skip(0) =~= all);
    }
    while i < ls.len()
        invariant
            i <= ls@.len(),
            text::texts(ls@) == all,
            name@ == "data: "@,
            text::strings(out@) + data_of(all.skip(i as int)) == start + data_of(all),
        decreases ls@.len() - i,
    {
        let line = &ls[i];
        proof {
            assert(all[i as int] == line@);
            assert(all.skip(i as int)[0] == line@);
            assert(all.skip(i as int).skip(1) =~= all.skip(i + 1));
        }
        if starts_with(line, "data: ") {
            let data = string_between(line, name.len(), line.len());
            proof {
                assert(data@ =~= line@.skip("data: "@.len() as int));
                text::lemma_strings_push(out@, data);
                assert(text::strings(out@).push(data@) + data_of(all.skip(i + 1)) =~= text::strings(
                    out@,
                ) + (seq![data@] + data_of(all.skip(i + 1))));
            }
            out.push(data);
        }
        i = i + 1;
    }
    proof {
        assert(all.skip(i as int) =~= Seq::<Seq<char>>::empty());
        assert(text::strings(out@) + data_of(all.skip(i as int)) =~= text::strings(out@));
    }
}

impl EventBuffer {
    /// Nothing received.
    pub fn new() -> (r: EventBuffer)
        ensures
            r@ == Seq::<char>::empty(),
    {
        let r = EventBuffer { text: Vec::new() };
        proof {
            assert(r@ =~= Seq::<char>::empty());
        }
        r
    }

    /// Takes in text and returns the data of the events that it completes.
    pub fn push_text(&mut self, chunk: &str) -> (r: Vec<String>)
        ensures
            text::strings(r@) == complete_data(old(self)@ + chunk@),
            final(self)@ == unfinished(old(self)@ + chunk@),
    {
        let more = chars_of(chunk);
        extend(&mut self.text, &more);
        let end: Vec<char> = vec!['\n', '\n'];
        let mut out: Vec<String> = Vec::new();
        let ghost all = self.text@;
        let mut from: usize = 0;
        proof {
            assert(end@ =~= event_end());
            assert(all.skip(0) =~= all);
            assert(text::strings(out@) + complete_data(all) =~= complete_data(all));
        }
        loop
            invariant
                from <= self.text@.len(),
                end@ == event_end(),
                self.text@ == all,
                text::strings(out@) + complete_data(all.skip(from as int)) == complete_data(all),
                unfinished(all.skip(from as int)) == unfinished(all),
            ensures
                text::first_match(all.skip(from as int), event_end()) is None,
            decreases self.text@.len() - from,
        {
            let ghost rest = all.skip(from as int);
            proof {
                text::lemma_first_match(rest, event_end());
            }
            match find_text(&self.text, from, &end) {
                None => {
                    break;
                },
                Some(k) => {
                    let event = piece(&self.text, from, k);
                    proof {
                        assert(event@ =~= rest.take(k - from));
                        assert(rest.skip(k - from + 2) =~= all.skip(k + 2));
                        assert((text::strings(out@) + data_of(lines::lines(event@)))
                            + complete_data(all.skip(k + 2)) =~= text::strings(out@) + (data_of(
                            lines::lines(event@),
                        ) + complete_data(all.skip(k + 2))));
                    }
                    push_data(&mut out, &event);
                    assert(k + 2 <= self.text.len());
                    from = k + 2;
                },
            }
        }
        proof {
            assert(text::strings(out@) + Seq::<Seq<char>>::empty() =~= text::strings(out@));
        }
        self.text = piece(&self.text, from, self.text.len());
        proof {
            assert(self.text@ =~= all.skip(from as int));
        }
        out
    }

    /// Takes in bytes and returns the data of the events that they complete.
    pub fn push_bytes(&mut self, chunk: &[u8]) -> (r: Vec<String>)
        ensures
            text::strings(r@) == complete_data(old(self)@ + bytes::utf8_lossy(chunk@)),
            final(self)@ == unfinished(old(self)@ + bytes::utf8_lossy(chunk@)),
    {
        let chunk_text = lossy_text(chunk);
        self.push_text(chunk_text.as_str())
    }
}

proof fn lemma_event_ends(event: Seq<char>)
    requires
        forall|i: int|
            0 <= i < event.len() ==> #[trigger] event[i] != '\n' || i + 1 < event.len() && event[i + 1]
                != '\n',
    ensures
        text::first_match(event + event_end(), event_end()) == Some(event.len() as int),
{
    let s = event + event_end();
    let n = event.len() as int;
    let p = event_end();
    text::lemma_first_match(s, p);
    assert(s.skip(n).take(2) =~= p);
    assert(text::has_prefix(s.skip(n), p));
    match text::first_match(s, p) {
        Some(i) => {
            if i < n {
                assert(s.subrange(i, i + 2)[0] == s[i]);
                assert(s.subrange(i, i + 2)[1] == s[i + 1]);
                assert(s[i] == event[i]);
                if i + 1 < n {
                    assert(s[i + 1] == event[i + 1]);
                }
            }
            if i > n {
                assert(!text::has_prefix(s.skip(n), p));
            }
        },
        None => {
            assert(!text::has_prefix(s.skip(n), p));
        },
    }
}

/// An event with a data line, as a server sends it, brings what stands behind `data: ` on that line,
/// before what follows it; a line with another name in front of it brings nothing. Before the blank
/// line has come, nothing is brought and all is kept.
pub proof fn law_data_lines_are_brought(name: Seq<char>, data: Seq<char>, rest: Seq<char>)
    requires
        forall|i: int| 0 <= i < name.len() ==> name[i] != '\n' && name[i] != '\r',
        forall|i: int| 0 <= i < data.len() ==> data[i] != '\n' && data[i] != '\r',
        name.len() > 0,
        !text::has_prefix(name, seq!['d', 'a', 't', 'a', ':', ' ']),
    ensures
        ({
            let line = seq!['d', 'a', 't', 'a', ':', ' '] + data;
            let end = seq!['\n', '\n'];
            &&& complete_data(line + end + rest) == seq![data] + complete_data(rest)
            &&& complete_data(name + seq!['\n'] + line + end + rest) == seq![data] + complete_data(
                rest,
            )
            &&& complete_data(name + end + rest) == complete_data(rest)
            &&& complete_data(line).len() == 0
            &&& unfinished(line) == line
            &&& unfinished(line + end + rest) == unfinished(rest)
        }),
{
    reveal_strlit("data: ");
    let head = seq!['d', 'a', 't', 'a', ':', ' '];
    let line = head + data;
    let end = seq!['\n', '\n'];
    assert("data: "@ =~= head);
    assert(event_end() =~= end);
    assert forall|i: int| 0 <= i < line.len() implies line[i] != '\n' && line[i] != '\r' by {
        if i >= 6 {
            assert(line[i] == data[i - 6]);
        }
    }
    assert(line.take(6) =~= head);
    assert(line.skip(6) =~= data);
    let none = Seq::<char>::empty();
    lines::law_line_ends(line, none);
    lines::law_line_ends(name, line);
    lines::law_line_ends(name, none);
    assert(lines::lines(line) =~= seq![line]);
    assert(lines::lines(name) =~= seq![name]);
    assert(seq![line].skip(1) =~= Seq::<Seq<char>>::empty());
    assert(seq![name].skip(1) =~= Seq::<Seq<char>>::empty());
    assert(data_of(seq![line]) =~= seq![data]) by {
        reveal_with_fuel(data_of, 2);
    }
    assert(data_of(seq![name]) =~= Seq::<Seq<char>>::empty()) by {
        reveal_with_fuel(data_of, 2);
    }
    lemma_event_ends(line);
    law_event_is_reported(line, rest);
    lemma_event_ends(name);
    law_event_is_reported(name, rest);
    assert(Seq::<Seq<char>>::empty() + complete_data(rest) =~= complete_data(rest));
    let both = name + seq!['\n'] + line;
    assert forall|i: int| 0 <= i < both.len() implies #[trigger] both[i] != '\n' || i + 1 < both.len()
        && both[i + 1] != '\n' by {
        let n = name.len() as int;
        if i < n {
            assert(both[i] == name[i]);
        } else if i == n {
            assert(both[i + 1] == line[0]);
        } else {
            assert(both[i] == line[i - n - 1]);
        }
    }
    lemma_event_ends(both);
    law_event_is_reported(both, rest);
    assert(lines::lines(both) =~= seq![name] + seq![line]);
    assert((seq![name] + seq![line]).skip(1) =~= seq![line]);
    assert(data_of(seq![name] + seq![line]) =~= seq![data]) by {
        reveal_with_fuel(data_of, 2);
    }
    text::lemma_first_match(line, end);
    match text::first_match(line, end) {
        Some(k) => {
            assert(line.subrange(k, k + 2)[0] == line[k]);
        },
        None => {},
    }
    lemma_first_match_of_longer(line + end, rest);
    assert((line + end + rest).skip(line.len() as int + 2) =~= rest);
}

} // verus!
