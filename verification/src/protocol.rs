//! The client protocol: one request line in, one response line out.
//!
//! | request             | effect on the store | response                   |
//! |---------------------|---------------------|----------------------------|
//! | `GET <key>`         | none                | `OK <value>`, `NOT FOUND`  |
//! | `PUT <key> <value>` | sets the key        | `OK`                       |
//! | `DEL <key>`         | removes the key     | `OK`                       |
//! | anything else       | none                | `ERROR`                    |

use crate::store::{apply, apply_repeatedly, lookup, Command, CommandView, Store};
use crate::text::{
    chars_of, field_bounds, is_white_space, join, law_join_of_split,
    law_split_fields_hold_no_separator, law_trim_strips_surroundings, lemma_split_append,
    lemma_split_single, slice_is_text, split, tight, trim, trim_bounds,
};
use vstd::prelude::*;
use vstd::slice::slice_subrange;
use vstd::string::*;

verus! {

/// The request that a line holds, or `None` where it holds none. The line is
/// trimmed of white space at both ends and split at every single space; the
/// first field is the command word, the others are the key and the value.
pub open spec fn parse_line(line: Seq<char>) -> Option<CommandView> {
    let fields = split(trim(line), ' ');
    if fields.len() == 2 && fields[0] == "GET"@ {
        Some(CommandView::Get(fields[1]))
    } else if fields.len() == 3 && fields[0] == "PUT"@ {
        Some(CommandView::Put(fields[1], fields[2]))
    } else if fields.len() == 2 && fields[0] == "DEL"@ {
        Some(CommandView::Del(fields[1]))
    } else {
        None
    }
}

/// The response line to `request`, given the store as the request finds it.
pub open spec fn response_to(
    store: Map<Seq<char>, Seq<char>>,
    request: Option<CommandView>,
) -> Seq<char> {
    match request {
        None => "ERROR\n"@,
        Some(CommandView::Get(key)) => match lookup(store, key) {
            Some(value) => "OK "@ + value + "\n"@,
            None => "NOT FOUND\n"@,
        },
        Some(_) => "OK\n"@,
    }
}

/// The store once `request` has been served.
pub open spec fn store_after(
    store: Map<Seq<char>, Seq<char>>,
    request: Option<CommandView>,
) -> Map<Seq<char>, Seq<char>> {
    match request {
        Some(command) => apply(store, command),
        None => store,
    }
}

/// The command that serving `request` hands on to the other consumers:
/// the request itself where it changes the store, nothing otherwise.
pub open spec fn replicated(request: Option<CommandView>) -> Option<CommandView> {
    match request {
        Some(CommandView::Put(_, _)) => request,
        Some(CommandView::Del(_)) => request,
        _ => None,
    }
}

/// What an optional command stands for.
pub open spec fn command_view(command: Option<Command>) -> Option<CommandView> {
    match command {
        Some(command) => Some(command@),
        None => None,
    }
}

/// The outcome of serving one request: the line to send back, and the
/// command to replicate, if the request changed the store.
#[derive(Debug, PartialEq, Eq)]
pub struct Reply {
    pub response: String,
    pub replicate: Option<Command>,
}

/// The part of `line` that lies `offset` characters past the range `field`.
fn field_text(line: &str, offset: usize, field: (usize, usize)) -> (text: String)
    requires
        field.0 <= field.1,
        offset + field.1 <= line@.len(),
        offset + field.1 <= usize::MAX,
    ensures
        text@ == line@.subrange(offset + field.0, offset + field.1),
{
    String::from_str(line.substring_char(offset + field.0, offset + field.1))
}

/// Reads a request line.
pub fn parse_command(line: &str) -> (request: Option<Command>)
    ensures
        command_view(request) == parse_line(line@),
{
    let chars: Vec<char> = chars_of(line);
    let (start, end) = trim_bounds(chars.as_slice());
    let body: &[char] = slice_subrange(chars.as_slice(), start, end);
    let fields: Vec<(usize, usize)> = field_bounds(body, ' ');
    if fields.len() != 2 && fields.len() != 3 {
        return None;
    }
    let word: &[char] = slice_subrange(body, fields[0].0, fields[0].1);
    proof {
        assert forall|k: int| 0 <= k < fields@.len() implies start + (#[trigger] fields@[k]).1
            <= end && body@.subrange(fields@[k].0 as int, fields@[k].1 as int) == line@.subrange(
            start + fields@[k].0,
            start + fields@[k].1,
        ) by {
            assert(body@.subrange(fields@[k].0 as int, fields@[k].1 as int) =~= line@.subrange(
                start + fields@[k].0,
                start + fields@[k].1,
            ));
        }
    }
    if fields.len() == 2 {
        if slice_is_text(word, "GET") {
            Some(Command::Get(field_text(line, start, fields[1])))
        } else if slice_is_text(word, "DEL") {
            Some(Command::Del(field_text(line, start, fields[1])))
        } else {
            None
        }
    } else {
        if slice_is_text(word, "PUT") {
            let key: String = field_text(line, start, fields[1]);
            let value: String = field_text(line, start, fields[2]);
            Some(Command::Put(key, value))
        } else {
            None
        }
    }
}

/// Serves a parsed request against the store.
pub fn respond(request: Option<Command>, store: &mut Store) -> (reply: Reply)
    ensures
        reply.response@ == response_to(old(store)@, command_view(request)),
        command_view(reply.replicate) == replicated(command_view(request)),
        final(store)@ == store_after(old(store)@, command_view(request)),
{
    match request {
        None => Reply { response: String::from_str("ERROR\n"), replicate: None },
        Some(Command::Get(key)) => {
            match store.read(key.as_str()) {
                Some(value) => {
                    let mut response: String = String::from_str("OK ");
                    response.append(value.as_str());
                    response.append("\n");
                    Reply { response, replicate: None }
                },
                None => Reply { response: String::from_str("NOT FOUND\n"), replicate: None },
            }
        },
        Some(Command::Put(key, value)) => {
            store.write(key.clone(), value.clone());
            Reply {
                response: String::from_str("OK\n"),
                replicate: Some(Command::Put(key, value)),
            }
        },
        Some(Command::Del(key)) => {
            store.delete(key.as_str());
            Reply { response: String::from_str("OK\n"), replicate: Some(Command::Del(key)) }
        },
    }
}

/// Serves one request line against the store.
pub fn serve(line: &str, store: &mut Store) -> (reply: Reply)
    ensures
        reply.response@ == response_to(old(store)@, parse_line(line@)),
        command_view(reply.replicate) == replicated(parse_line(line@)),
        final(store)@ == store_after(old(store)@, parse_line(line@)),
{
    respond(parse_command(line), store)
}

proof fn lemma_two_fields(text: Seq<char>, word: Seq<char>, key: Seq<char>)
    requires
        !word.contains(' '),
    ensures
        (split(text, ' ') == seq![word, key]) <==> (text == word.push(' ') + key && !key.contains(
            ' ',
        )),
{
    if text == word.push(' ') + key && !key.contains(' ') {
        lemma_split_single(word, ' ');
        lemma_split_append(word, key, ' ');
        assert(seq![word].push(key) =~= seq![word, key]);
    }
    if split(text, ' ') == seq![word, key] {
        let fields = split(text, ' ');
        law_join_of_split(text, ' ');
        law_split_fields_hold_no_separator(text, ' ', 1);
        assert(fields.drop_last() =~= seq![word]);
        assert(join(fields.drop_last(), ' ') == word);
        assert(join(fields, ' ') == word.push(' ') + key);
    }
}

proof fn lemma_three_fields(text: Seq<char>, word: Seq<char>, key: Seq<char>, value: Seq<char>)
    requires
        !word.contains(' '),
    ensures
        (split(text, ' ') == seq![word, key, value]) <==> (text == (word.push(' ') + key).push(' ')
            + value && !key.contains(' ') && !value.contains(' ')),
{
    let head = word.push(' ') + key;
    if text == head.push(' ') + value && !key.contains(' ') && !value.contains(' ') {
        lemma_two_fields(head, word, key);
        lemma_split_append(head, value, ' ');
        assert(seq![word, key].push(value) =~= seq![word, key, value]);
    }
    if split(text, ' ') == seq![word, key, value] {
        let fields = split(text, ' ');
        law_join_of_split(text, ' ');
        law_split_fields_hold_no_separator(text, ' ', 1);
        law_split_fields_hold_no_separator(text, ' ', 2);
        assert(fields.drop_last() =~= seq![word, key]);
        assert(fields.drop_last().drop_last() =~= seq![word]);
        assert(join(fields.drop_last().drop_last(), ' ') == word);
        assert(join(fields.drop_last(), ' ') == head);
        assert(join(fields, ' ') == head.push(' ') + value);
    }
}

proof fn lemma_command_words()
    ensures
        "GET"@ == seq!['G', 'E', 'T'],
        "PUT"@ == seq!['P', 'U', 'T'],
        "DEL"@ == seq!['D', 'E', 'L'],
        "GET "@ == "GET"@.push(' '),
        "PUT "@ == "PUT"@.push(' '),
        "DEL "@ == "DEL"@.push(' '),
        " "@ == seq![' '],
        "\n"@ == seq!['\n'],
        !"GET"@.contains(' '),
        !"PUT"@.contains(' '),
        !"DEL"@.contains(' '),
{
    reveal_strlit("GET");
    reveal_strlit("PUT");
    reveal_strlit("DEL");
    reveal_strlit("GET ");
    reveal_strlit("PUT ");
    reveal_strlit("DEL ");
    reveal_strlit(" ");
    reveal_strlit("\n");
    assert("GET"@ =~= seq!['G', 'E', 'T']);
    assert("PUT"@ =~= seq!['P', 'U', 'T']);
    assert("DEL"@ =~= seq!['D', 'E', 'L']);
    assert("GET "@ =~= "GET"@.push(' '));
    assert("PUT "@ =~= "PUT"@.push(' '));
    assert("DEL "@ =~= "DEL"@.push(' '));
    assert(" "@ =~= seq![' ']);
    assert("\n"@ =~= seq!['\n']);
}

/// The grammar of a get: a line holds one exactly when, trimmed, it reads
/// `GET`, one space, and a key without a space in it.
pub proof fn law_get_grammar(line: Seq<char>, key: Seq<char>)
    ensures
        parse_line(line) == Some(CommandView::Get(key)) <==> (trim(line) == "GET "@ + key
            && !key.contains(' ')),
{
    lemma_command_words();
    lemma_two_fields(trim(line), "GET"@, key);
    let fields = split(trim(line), ' ');
    if parse_line(line) == Some(CommandView::Get(key)) {
        assert(fields =~= seq!["GET"@, key]);
    }
}

/// The grammar of a delete: a line holds one exactly when, trimmed, it
/// reads `DEL`, one space, and a key without a space in it.
pub proof fn law_del_grammar(line: Seq<char>, key: Seq<char>)
    ensures
        parse_line(line) == Some(CommandView::Del(key)) <==> (trim(line) == "DEL "@ + key
            && !key.contains(' ')),
{
    lemma_command_words();
    lemma_two_fields(trim(line), "DEL"@, key);
    let fields = split(trim(line), ' ');
    if parse_line(line) == Some(CommandView::Del(key)) {
        assert(fields =~= seq!["DEL"@, key]);
    }
}

/// The grammar of a put: a line holds one exactly when, trimmed, it reads
/// `PUT`, one space, a key, one space and a value, with no space in the key
/// or in the value.
pub proof fn law_put_grammar(line: Seq<char>, key: Seq<char>, value: Seq<char>)
    ensures
        parse_line(line) == Some(CommandView::Put(key, value)) <==> (trim(line) == "PUT "@ + key
            + " "@ + value && !key.contains(' ') && !value.contains(' ')),
{
    lemma_command_words();
    lemma_three_fields(trim(line), "PUT"@, key, value);
    let fields = split(trim(line), ' ');
    assert(("PUT"@.push(' ') + key).push(' ') + value =~= "PUT "@ + key + " "@ + value);
    if parse_line(line) == Some(CommandView::Put(key, value)) {
        assert(fields =~= seq!["PUT"@, key, value]);
    }
}

/// Whether `text` can stand as the last field of a request line and come
/// back as it is: it is not empty, holds no space, and does not end in
/// white space.
pub open spec fn closes_a_line(text: Seq<char>) -> bool {
    text.len() > 0 && !text.contains(' ') && !is_white_space(text.last())
}

/// The request line of a get, ended by a line feed, is read as that get.
pub proof fn law_get_line(key: Seq<char>)
    requires
        closes_a_line(key),
    ensures
        parse_line("GET "@ + key + "\n"@) == Some(CommandView::Get(key)),
{
    lemma_command_words();
    lemma_line_trimmed("GET "@ + key);
    law_get_grammar("GET "@ + key + "\n"@, key);
}

/// The request line of a delete, ended by a line feed, is read as that
/// delete.
pub proof fn law_del_line(key: Seq<char>)
    requires
        closes_a_line(key),
    ensures
        parse_line("DEL "@ + key + "\n"@) == Some(CommandView::Del(key)),
{
    lemma_command_words();
    lemma_line_trimmed("DEL "@ + key);
    law_del_grammar("DEL "@ + key + "\n"@, key);
}

/// The request line of a put, ended by a line feed, is read as that put.
pub proof fn law_put_line(key: Seq<char>, value: Seq<char>)
    requires
        !key.contains(' '),
        closes_a_line(value),
    ensures
        parse_line("PUT "@ + key + " "@ + value + "\n"@) == Some(CommandView::Put(key, value)),
{
    lemma_command_words();
    lemma_line_trimmed("PUT "@ + key + " "@ + value);
    law_put_grammar("PUT "@ + key + " "@ + value + "\n"@, key, value);
}

proof fn lemma_line_trimmed(body: Seq<char>)
    requires
        tight(body),
    ensures
        trim(body + "\n"@) == body,
{
    lemma_command_words();
    assert(Seq::<char>::empty() + body + "\n"@ =~= body + "\n"@);
    law_trim_strips_surroundings(Seq::<char>::empty(), body, "\n"@);
}

/// Last write wins: after two puts to one key, a get of that key answers
/// with the value of the second.
pub proof fn law_get_after_puts(
    store: Map<Seq<char>, Seq<char>>,
    key: Seq<char>,
    first: Seq<char>,
    second: Seq<char>,
)
    ensures
        response_to(
            store_after(
                store_after(store, Some(CommandView::Put(key, first))),
                Some(CommandView::Put(key, second)),
            ),
            Some(CommandView::Get(key)),
        ) == "OK "@ + second + "\n"@,
{
}

/// After one delete of a key or more, a get of that key finds nothing,
/// whether or not the key was there before.
pub proof fn law_get_after_deletes(store: Map<Seq<char>, Seq<char>>, key: Seq<char>, times: nat)
    requires
        times >= 1,
    ensures
        response_to(
            apply_repeatedly(store, CommandView::Del(key), times),
            Some(CommandView::Get(key)),
        ) == "NOT FOUND\n"@,
{
}

} // verus!
