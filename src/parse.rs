use vstd::prelude::*;
use vstd::string::*;

use crate::error::ParseError;
use crate::number::{bytes_to_number, lemma_number_error_kind, number_value};
use crate::request::{HostChannel, HostRequest, Interface, Operation, PAYLOAD_WORDS};
use crate::text::{split_words, views, words};

verus! {

/// A line holds at most this many words: interface, operation, four payload words.
pub const MAX_WORDS: usize = 6;

/// `c` is the keyword letter `k`, or its upper-case form.
pub open spec fn same_letter(c: char, k: char) -> bool {
    c == k || ('a' <= k && k <= 'z' && c as int == k as int - 32)
}

/// `t` spells the lower-case keyword `k`, each letter in either case.
pub open spec fn spells(t: Seq<char>, k: Seq<char>) -> bool {
    t.len() == k.len() && forall|i: int| 0 <= i < t.len() ==> same_letter(t[i], k[i])
}

pub open spec fn interface_of(t: Seq<char>) -> Option<Interface> {
    if spells(t, seq!['s', 'm', 'i']) {
        Some(Interface::RegisterBus)
    } else if spells(t, seq!['c', 'f', 'g']) {
        Some(Interface::Config)
    } else if spells(t, seq!['g', 'p', 'i', 'o']) {
        Some(Interface::Gpio)
    } else if spells(t, seq!['j', 't', 'a', 'g']) {
        Some(Interface::Jtag)
    } else if spells(t, seq!['s', 'p', 'i']) {
        Some(Interface::Spi)
    } else {
        None
    }
}

pub open spec fn operation_of(t: Seq<char>) -> Option<Operation> {
    if spells(t, seq!['r']) {
        Some(Operation::Read)
    } else if spells(t, seq!['w']) {
        Some(Operation::Write)
    } else if spells(t, seq!['s', 'm', 'i', 's', 'e', 't']) {
        Some(Operation::BusSpecificSet)
    } else {
        None
    }
}

/// The values of the payload words in order, or the error of the first
/// word that has none.
pub open spec fn payload_values(ws: Seq<Seq<char>>) -> Result<Seq<u32>, ParseError>
    decreases ws.len(),
{
    if ws.len() == 0 {
        Ok(seq![])
    } else {
        match payload_values(ws.drop_last()) {
            Err(e) => Err(e),
            Ok(vs) => match number_value(ws.last()) {
                Err(e) => Err(e),
                Ok(v) => Ok(vs.push(v)),
            },
        }
    }
}

/// What a command line means: its interface, operation and payload values,
/// or the error that rejects it.
pub open spec fn parse_line(s: Seq<char>) -> Result<(Interface, Operation, Seq<u32>), ParseError> {
    let w = words(s);
    if w.len() > MAX_WORDS {
        Err(ParseError::TooManyArguments)
    } else if w.len() == 0 || interface_of(w[0]) is None {
        Err(ParseError::InvalidInterface)
    } else if w.len() == 1 || operation_of(w[1]) is None {
        Err(ParseError::InvalidOperation)
    } else {
        match payload_values(w.skip(2)) {
            Err(e) => Err(e),
            Ok(vs) => Ok((interface_of(w[0])->Some_0, operation_of(w[1])->Some_0, vs)),
        }
    }
}

/// `r` is what parsing the line `s` must give: the request that `parse_line`
/// describes, complete, or its error.
pub open spec fn parsed_as(s: Seq<char>, r: Result<HostRequest, ParseError>) -> bool {
    match parse_line(s) {
        Ok((i, o, values)) => r matches Ok(req) && req.describes(i, o, values) && req.complete(),
        Err(e) => r == Err::<HostRequest, ParseError>(e),
    }
}

proof fn lemma_payload_error_extends(ws: Seq<Seq<char>>, k: int)
    requires
        0 <= k <= ws.len(),
        payload_values(ws.take(k)) is Err,
    ensures
        payload_values(ws) == payload_values(ws.take(k)),
    decreases ws.len() - k,
{
    if k < ws.len() {
        assert(ws.take(k + 1).drop_last() =~= ws.take(k));
        lemma_payload_error_extends(ws, k + 1);
    } else {
        assert(ws.take(k) =~= ws);
    }
}

proof fn lemma_payload_all_valid(ws: Seq<Seq<char>>)
    requires
        forall|k: int| 0 <= k < ws.len() ==> number_value(#[trigger] ws[k]) is Ok,
    ensures
        payload_values(ws) matches Ok(vs) && vs.len() == ws.len() && forall|k: int|
            0 <= k < ws.len() ==> number_value(#[trigger] ws[k]) == Ok::<u32, ParseError>(vs[k]),
    decreases ws.len(),
{
    if ws.len() > 0 {
        let init = ws.drop_last();
        assert forall|k: int| 0 <= k < init.len() implies number_value(#[trigger] init[k]) is Ok by {
            assert(init[k] == ws[k]);
        }
        lemma_payload_all_valid(init);
        assert(number_value(ws[ws.len() - 1]) is Ok);
        let vs = payload_values(init)->Ok_0;
        assert forall|k: int| 0 <= k < ws.len() implies number_value(#[trigger] ws[k])
            == Ok::<u32, ParseError>(payload_values(ws)->Ok_0[k]) by {
            if k < init.len() {
                assert(init[k] == ws[k]);
            }
        }
    }
}

/// `t` spells the lower-case keyword `k`, each letter in either case.
fn spells_keyword(t: &str, k: &str) -> (r: bool)
    ensures
        r == spells(t@, k@),
{
    let n = k.unicode_len();
    if t.unicode_len() != n {
        return false;
    }
    let mut i: usize = 0;
    while i < n
        invariant
            n == k@.len(),
            n == t@.len(),
            i <= n,
            forall|m: int| 0 <= m < i ==> same_letter(t@[m], k@[m]),
        decreases n - i,
    {
        let c = t.get_char(i);
        let l = k.get_char(i);
        let upper = 'a' <= l && l <= 'z' && c as u32 + 32 == l as u32;
        if c != l && !upper {
            return false;
        }
        i = i + 1;
    }
    true
}

fn match_interface(t: &str) -> (r: Option<Interface>)
    ensures
        r == interface_of(t@),
{
    proof {
        reveal_strlit("smi");
        reveal_strlit("cfg");
        reveal_strlit("gpio");
        reveal_strlit("jtag");
        reveal_strlit("spi");
        assert("smi"@ =~= seq!['s', 'm', 'i']);
        assert("cfg"@ =~= seq!['c', 'f', 'g']);
        assert("gpio"@ =~= seq!['g', 'p', 'i', 'o']);
        assert("jtag"@ =~= seq!['j', 't', 'a', 'g']);
        assert("spi"@ =~= seq!['s', 'p', 'i']);
    }
    if spells_keyword(t, "smi") {
        Some(Interface::RegisterBus)
    } else if spells_keyword(t, "cfg") {
        Some(Interface::Config)
    } else if spells_keyword(t, "gpio") {
        Some(Interface::Gpio)
    } else if spells_keyword(t, "jtag") {
        Some(Interface::Jtag)
    } else if spells_keyword(t, "spi") {
        Some(Interface::Spi)
    } else {
        None
    }
}

fn match_operation(t: &str) -> (r: Option<Operation>)
    ensures
        r == operation_of(t@),
{
    proof {
        reveal_strlit("r");
        reveal_strlit("w");
        reveal_strlit("smiset");
        assert("r"@ =~= seq!['r']);
        assert("w"@ =~= seq!['w']);
        assert("smiset"@ =~= seq!['s', 'm', 'i', 's', 'e', 't']);
    }
    if spells_keyword(t, "r") {
        Some(Operation::Read)
    } else if spells_keyword(t, "w") {
        Some(Operation::Write)
    } else if spells_keyword(t, "smiset") {
        Some(Operation::BusSpecificSet)
    } else {
        None
    }
}

/// Parses one command line, `<interface> <operation> [word]...`, into a
/// complete draft request whose channel is `Serial`.
pub fn message_parse_build(input: &str) -> (r: Result<HostRequest, ParseError>)
    ensures
        parsed_as(input@, r),
{
    let mut hr = HostRequest::new();
    hr.set_host_config(HostChannel::Serial);
    let ws = split_words(input);
    let count = ws.len();
    let ghost w = words(input@);
    if count > MAX_WORDS {
        return Err(ParseError::TooManyArguments);
    }
    if count == 0 {
        return Err(ParseError::InvalidInterface);
    }
    assert(w[0] == ws@[0]@);
    match match_interface(ws[0]) {
        None => {
            return Err(ParseError::InvalidInterface);
        },
        Some(i) => hr.set_interface(i),
    }
    if count == 1 {
        return Err(ParseError::InvalidOperation);
    }
    assert(w[1] == ws@[1]@);
    match match_operation(ws[1]) {
        None => {
            return Err(ParseError::InvalidOperation);
        },
        Some(o) => hr.set_operation(o),
    }
    let ghost pw = w.skip(2);
    let mut payload: [u32; 4] = [0u32, 0u32, 0u32, 0u32];
    let mut size: usize = 0;
    proof {
        assert(pw.take(0) =~= Seq::<Seq<char>>::empty());
        assert(payload@.take(0) =~= Seq::<u32>::empty());
    }
    while size < count - 2
        invariant
            count == ws@.len(),
            2 <= count <= MAX_WORDS,
            views(ws@) == w,
            w == words(input@),
            interface_of(w[0]) is Some,
            operation_of(w[1]) is Some,
            pw == w.skip(2),
            size <= count - 2,
            payload_values(pw.take(size as int)) == Ok::<Seq<u32>, ParseError>(
                payload@.take(size as int),
            ),
            forall|k: int| size <= k < PAYLOAD_WORDS ==> payload@[k] == 0,
        decreases count - 2 - size,
    {
        let word = ws[size + 2];
        proof {
            assert(views(ws@)[size + 2] == word@);
            assert(pw.take(size + 1).drop_last() =~= pw.take(size as int));
            assert(pw.take(size + 1).last() == word@);
        }
        match bytes_to_number(word) {
            Err(e) => {
                proof {
                    assert(payload_values(pw.take(size + 1)) == Err::<Seq<u32>, ParseError>(e));
                    lemma_payload_error_extends(pw, size + 1);
                }
                return Err(e);
            },
            Ok(v) => {
                let ghost before = payload@;
                payload[size] = v;
                proof {
                    assert(payload@.take(size + 1) =~= before.take(size as int).push(v));
                }
            },
        }
        size = size + 1;
    }
    proof {
        assert(pw.take(size as int) =~= pw);
    }
    hr.set_size(size as u8);
    hr.set_payload(payload);
    assert(forall|k: int| 0 <= k < size ==> payload@[k] == payload@.take(size as int)[k]);
    Ok(hr)
}

/// A line with more than six words is refused as having too many
/// arguments, and only such a line is.
pub proof fn law_word_limit(s: Seq<char>)
    ensures
        words(s).len() > MAX_WORDS <==> parse_line(s) == Err::<
            (Interface, Operation, Seq<u32>),
            ParseError,
        >(ParseError::TooManyArguments),
{
    let w = words(s);
    if w.len() <= MAX_WORDS && w.len() > 1 && interface_of(w[0]) is Some && operation_of(
        w[1],
    ) is Some {
        let pw = w.skip(2);
        if payload_values(pw) matches Err(e) {
            lemma_payload_error_kind(pw);
        }
    }
}

proof fn lemma_payload_error_kind(ws: Seq<Seq<char>>)
    ensures
        payload_values(ws) != Err::<Seq<u32>, ParseError>(ParseError::TooManyArguments),
    decreases ws.len(),
{
    if ws.len() > 0 {
        lemma_payload_error_kind(ws.drop_last());
        lemma_number_error_kind(ws.last());
    }
}

/// A line of an interface keyword, an operation keyword and up to four
/// numeric words is accepted: its request has that interface and operation,
/// one payload slot per numeric word, and their values in order.
pub proof fn law_payload_in_order(s: Seq<char>)
    requires
        2 <= words(s).len() <= MAX_WORDS,
        interface_of(words(s)[0]) is Some,
        operation_of(words(s)[1]) is Some,
        forall|k: int| 2 <= k < words(s).len() ==> number_value(#[trigger] words(s)[k]) is Ok,
    ensures
        parse_line(s) matches Ok((i, o, values)) && Some(i) == interface_of(words(s)[0]) && Some(o)
            == operation_of(words(s)[1]) && values.len() == words(s).len() - 2 && forall|k: int|
            0 <= k < values.len() ==> number_value(#[trigger] words(s)[k + 2]) == Ok::<
                u32,
                ParseError,
            >(values[k]),
{
    let w = words(s);
    let pw = w.skip(2);
    assert forall|k: int| 0 <= k < pw.len() implies number_value(#[trigger] pw[k]) is Ok by {
        assert(pw[k] == w[k + 2]);
    }
    lemma_payload_all_valid(pw);
    let values = payload_values(pw)->Ok_0;
    assert forall|k: int| 0 <= k < values.len() implies number_value(#[trigger] w[k + 2]) == Ok::<
        u32,
        ParseError,
    >(values[k]) by {
        assert(pw[k] == w[k + 2]);
    }
}

} // verus!
