//! Outbound commands, inbound frames, and the wire text of both.

use crate::text::{decimal_text, lemma_less_total, lemma_less_transitive, less, push_decimal};
use crate::text::{lemma_less_irreflexive, text_less};
use vstd::prelude::*;
use vstd::string::*;

verus! {

/// A command of the remote-debugging protocol, named by domain and command.
#[allow(non_camel_case_types)]
#[derive(Debug, Clone, Copy, PartialEq, Eq, Structural)]
pub enum Method {
    Browser_getVersion,
    Page_navigate,
}

impl Method {
    /// The method's wire name: the domain, a dot, the command.
    pub open spec fn wire_name(self) -> Seq<char> {
        match self {
            Method::Browser_getVersion => "Browser.getVersion"@,
            Method::Page_navigate => "Page.navigate"@,
        }
    }

    /// The method's wire name as a string slice.
    pub fn as_str(&self) -> (r: &'static str)
        ensures
            r@ == self.wire_name(),
    {
        match self {
            Method::Browser_getVersion => "Browser.getVersion",
            Method::Page_navigate => "Page.navigate",
        }
    }

    /// The method's wire name as an owned string.
    pub fn to_string(&self) -> (r: String)
        ensures
            r@ == self.wire_name(),
    {
        String::from_str(self.as_str())
    }
}

/// The character sequences of a list of key/value pairs.
pub open spec fn pair_texts(pairs: Seq<(String, String)>) -> Seq<(Seq<char>, Seq<char>)> {
    Seq::new(pairs.len(), |i: int| (pairs[i].0@, pairs[i].1@))
}

/// The keys stand in ascending order, so that none occurs twice.
pub open spec fn sorted_keys(pairs: Seq<(Seq<char>, Seq<char>)>) -> bool {
    forall|i: int, j: int|
        0 <= i < j < pairs.len() ==> text_less((#[trigger] pairs[i]).0, (#[trigger] pairs[j]).0)
}

/// `place` is behind the keys that come before `key` and before all others.
pub open spec fn is_rank(pairs: Seq<(Seq<char>, Seq<char>)>, key: Seq<char>, place: int) -> bool {
    &&& 0 <= place <= pairs.len()
    &&& forall|k: int| 0 <= k < place ==> text_less((#[trigger] pairs[k]).0, key)
    &&& forall|k: int| place <= k < pairs.len() ==> !text_less((#[trigger] pairs[k]).0, key)
}

/// The place of `key` among pairs in ascending order.
pub open spec fn key_rank(pairs: Seq<(Seq<char>, Seq<char>)>, key: Seq<char>) -> int {
    choose|place: int| is_rank(pairs, key, place)
}

/// Pairs in ascending order with `key` set to `value`: in the place of the
/// key where it is there, and put in at its place where it is new.
pub open spec fn with_pair(
    pairs: Seq<(Seq<char>, Seq<char>)>,
    key: Seq<char>,
    value: Seq<char>,
) -> Seq<(Seq<char>, Seq<char>)> {
    let place = key_rank(pairs, key);
    if place < pairs.len() && pairs[place].0 == key {
        pairs.update(place, (key, value))
    } else {
        pairs.insert(place, (key, value))
    }
}

/// The parameters that a list of pairs gives: each key once, in ascending
/// order of the keys, with the value that was given last.
pub open spec fn collected(pairs: Seq<(Seq<char>, Seq<char>)>) -> Seq<(Seq<char>, Seq<char>)>
    decreases pairs.len(),
{
    if pairs.len() == 0 {
        Seq::empty()
    } else {
        with_pair(collected(pairs.drop_last()), pairs.last().0, pairs.last().1)
    }
}

/// Among pairs in ascending order of their keys no key occurs twice.
pub proof fn lemma_sorted_keys_distinct(pairs: Seq<(Seq<char>, Seq<char>)>)
    requires
        sorted_keys(pairs),
    ensures
        forall|i: int, j: int|
            0 <= i < pairs.len() && 0 <= j < pairs.len() && i != j ==> (#[trigger] pairs[i]).0 != (
            #[trigger] pairs[j]).0,
{
    assert forall|i: int, j: int|
        0 <= i < pairs.len() && 0 <= j < pairs.len() && i != j implies (#[trigger] pairs[i]).0 != (
    #[trigger] pairs[j]).0 by {
        lemma_less_irreflexive(pairs[i].0);
        if i < j {
            assert(text_less(pairs[i].0, pairs[j].0));
        } else {
            assert(text_less(pairs[j].0, pairs[i].0));
        }
    }
}

/// Only one place is the rank of a key.
proof fn lemma_rank_unique(pairs: Seq<(Seq<char>, Seq<char>)>, key: Seq<char>, place: int)
    requires
        is_rank(pairs, key, place),
    ensures
        key_rank(pairs, key) == place,
{
    let chosen = key_rank(pairs, key);
    assert(is_rank(pairs, key, chosen));
    if chosen < place {
        assert(text_less(pairs[chosen].0, key));
    }
    if place < chosen {
        assert(text_less(pairs[place].0, key));
    }
}

/// Sets `key` to `value` among pairs in ascending order.
fn set_pair(pairs: &mut Vec<(String, String)>, key: String, value: String)
    requires
        sorted_keys(pair_texts(old(pairs)@)),
    ensures
        sorted_keys(pair_texts(final(pairs)@)),
        pair_texts(final(pairs)@) == with_pair(pair_texts(old(pairs)@), key@, value@),
{
    let ghost before = pair_texts(pairs@);
    let mut i: usize = 0;
    let mut found = false;
    while i < pairs.len() && !found
        invariant
            i <= pairs.len(),
            before == pair_texts(pairs@),
            before == pair_texts(old(pairs)@),
            forall|k: int| 0 <= k < i ==> text_less((#[trigger] before[k]).0, key@),
            found ==> i < pairs.len() && !text_less(before[i as int].0, key@),
        decreases pairs.len() - i + (if found { 0int } else { 1int }),
    {
        if less(pairs[i].0.as_str(), key.as_str()) {
            assert(text_less(before[i as int].0, key@));
            i += 1;
        } else {
            assert(!text_less(before[i as int].0, key@));
            found = true;
        }
    }
    proof {
        assert forall|k: int| i <= k < before.len() implies !text_less(
            (#[trigger] before[k]).0,
            key@,
        ) by {
            if k > i && text_less(before[k].0, key@) {
                assert(text_less(before[i as int].0, before[k].0));
                lemma_less_transitive(before[i as int].0, before[k].0, key@);
            }
        }
        assert(is_rank(before, key@, i as int));
        lemma_rank_unique(before, key@, i as int);
    }
    if found && pairs[i].0 == key {
        pairs.set(i, (key, value));
        proof {
            let after = pair_texts(pairs@);
            assert(after =~= before.update(i as int, (key@, value@)));
            assert forall|a: int, b: int| 0 <= a < b < after.len() implies text_less(
                (#[trigger] after[a]).0,
                (#[trigger] after[b]).0,
            ) by {
                assert(after[a].0 == before[a].0);
                assert(after[b].0 == before[b].0);
            }
        }
    } else {
        pairs.insert(i, (key, value));
        proof {
            let after = pair_texts(pairs@);
            assert(after =~= before.insert(i as int, (key@, value@)));
            assert forall|k: int| i <= k < before.len() implies text_less(
                key@,
                (#[trigger] before[k]).0,
            ) by {
                if before[k].0 == key@ {
                    assert(k > i);
                    assert(text_less(before[i as int].0, before[k].0));
                } else {
                    lemma_less_total(key@, before[k].0);
                }
            }
            assert forall|a: int, b: int| 0 <= a < b < after.len() implies text_less(
                (#[trigger] after[a]).0,
                (#[trigger] after[b]).0,
            ) by {
                if b < i {
                    assert(after[a] == before[a]);
                    assert(after[b] == before[b]);
                } else if b == i {
                    assert(after[a] == before[a]);
                } else if a < i {
                    assert(after[a] == before[a]);
                    assert(after[b] == before[b - 1]);
                } else if a == i {
                    assert(after[b] == before[b - 1]);
                } else {
                    assert(after[a] == before[a - 1]);
                    assert(after[b] == before[b - 1]);
                }
            }
        }
    }
}

/// An outbound command: a method and, optionally, its parameters, which
/// are held and written in ascending order of their keys, each key once.
#[derive(Debug)]
pub struct Message {
    method: Method,
    params: Option<Vec<(String, String)>>,
}

/// The JSON string literal that `serde_json` writes for a text: the text in
/// double quotes, with its escapes.
pub uninterp spec fn json_quoted(text: Seq<char>) -> Seq<char>;

/// Calls `serde_json`'s `Display` for `Value::String`, which writes the text
/// as one compact JSON string literal. The contract only names that literal;
/// it claims nothing about which characters are escaped.
#[verifier::external_body]
fn quote(text: &str) -> (r: String)
    ensures
        r@ == json_quoted(text@),
{
    format!("{}", serde_json::Value::String(text.to_owned()))
}

/// The members of a JSON object, given as already quoted keys and values:
/// `key:value` joined by commas.
pub open spec fn members_text(quoted: Seq<(Seq<char>, Seq<char>)>) -> Seq<char>
    decreases quoted.len(),
{
    if quoted.len() == 0 {
        Seq::empty()
    } else if quoted.len() == 1 {
        quoted[0].0 + ":"@ + quoted[0].1
    } else {
        members_text(quoted.drop_last()) + ","@ + quoted.last().0 + ":"@ + quoted.last().1
    }
}

/// The wire text of a command, given its id, its quoted method name and its
/// quoted parameters. The `params` member is present exactly when parameters
/// were supplied, also when the supplied list is empty.
pub open spec fn envelope_text(
    id: u64,
    quoted_method: Seq<char>,
    quoted_params: Option<Seq<(Seq<char>, Seq<char>)>>,
) -> Seq<char> {
    let head = "{\"id\":"@ + decimal_text(id as nat) + ",\"method\":"@ + quoted_method;
    match quoted_params {
        None => head + "}"@,
        Some(members) => head + ",\"params\":{"@ + members_text(members) + "}}"@,
    }
}

/// Each key and each value replaced by its JSON string literal.
pub open spec fn quoted_pairs(pairs: Seq<(Seq<char>, Seq<char>)>) -> Seq<(Seq<char>, Seq<char>)> {
    Seq::new(pairs.len(), |i: int| (json_quoted(pairs[i].0), json_quoted(pairs[i].1)))
}

/// The wire text of a command with the given id, method name and parameters.
pub open spec fn wire_text(
    id: u64,
    method: Seq<char>,
    params: Option<Seq<(Seq<char>, Seq<char>)>>,
) -> Seq<char> {
    envelope_text(
        id,
        json_quoted(method),
        match params {
            None => None,
            Some(pairs) => Some(quoted_pairs(pairs)),
        },
    )
}

/// Writes the members of a JSON object from quoted keys and values.
fn push_members(out: &mut String, quoted: &Vec<(String, String)>)
    ensures
        final(out)@ == old(out)@ + members_text(pair_texts(quoted@)),
{
    let ghost all = pair_texts(quoted@);
    let mut i: usize = 0;
    while i < quoted.len()
        invariant
            i <= quoted.len(),
            all == pair_texts(quoted@),
            out@ == old(out)@ + members_text(all.subrange(0, i as int)),
        decreases quoted.len() - i,
    {
        let ghost before = out@;
        let ghost done = all.subrange(0, i as int);
        let ghost next = all.subrange(0, i + 1);
        if i > 0 {
            out.append(",");
        }
        out.append(quoted[i].0.as_str());
        out.append(":");
        out.append(quoted[i].1.as_str());
        proof {
            assert(next.drop_last() =~= done);
            assert(next.last() == all[i as int]);
            assert(all[i as int] == (quoted@[i as int].0@, quoted@[i as int].1@));
            if i == 0 {
                assert(done.len() == 0);
                assert(out@ =~= old(out)@ + members_text(next));
            } else {
                assert(next.len() > 1);
                assert(out@ =~= old(out)@ + members_text(next));
            }
        }
        i += 1;
    }
    proof {
        assert(all.subrange(0, i as int) =~= all);
    }
}

/// Assembles the wire text of a command from its id, its method name as a
/// JSON string literal, and its parameters as pairs of JSON string literals.
pub fn frame_text(id: u64, quoted_method: &str, quoted_params: Option<&Vec<(String, String)>>) -> (r:
    String)
    ensures
        r@ == envelope_text(
            id,
            quoted_method@,
            match quoted_params {
                None => None,
                Some(pairs) => Some(pair_texts(pairs@)),
            },
        ),
{
    let mut out = String::from_str("{\"id\":");
    push_decimal(&mut out, id);
    out.append(",\"method\":");
    out.append(quoted_method);
    match quoted_params {
        None => {
            out.append("}");
        },
        Some(pairs) => {
            out.append(",\"params\":{");
            push_members(&mut out, pairs);
            out.append("}}");
        },
    }
    out
}

impl Message {
    /// The method of the command.
    pub closed spec fn method(self) -> Method {
        self.method
    }

    /// The parameters of the command, if any were supplied.
    pub closed spec fn params(self) -> Option<Seq<(Seq<char>, Seq<char>)>> {
        match self.params {
            None => None,
            Some(pairs) => Some(pair_texts(pairs@)),
        }
    }

    /// A command without parameters.
    pub fn new(method: Method) -> (r: Message)
        ensures
            r.method() == method,
            r.params() == None::<Seq<(Seq<char>, Seq<char>)>>,
    {
        Message { method: method, params: None }
    }

    /// A command with the given parameters, which may be empty. Where a key
    /// is given more than once, its last value counts.
    pub fn new_with_params(method: Method, params: Vec<(String, String)>) -> (r: Message)
        ensures
            r.method() == method,
            r.params() == Some(collected(pair_texts(params@))),
            sorted_keys(collected(pair_texts(params@))),
    {
        let ghost given = pair_texts(params@);
        let mut kept: Vec<(String, String)> = Vec::new();
        let mut i: usize = 0;
        proof {
            assert(given.subrange(0, 0) =~= Seq::empty());
            assert(pair_texts(kept@) =~= Seq::empty());
        }
        while i < params.len()
            invariant
                i <= params.len(),
                given == pair_texts(params@),
                sorted_keys(pair_texts(kept@)),
                pair_texts(kept@) == collected(given.subrange(0, i as int)),
            decreases params.len() - i,
        {
            let key = params[i].0.clone();
            let value = params[i].1.clone();
            proof {
                let next = given.subrange(0, i + 1);
                assert(next.drop_last() =~= given.subrange(0, i as int));
                assert(next.last() == (key@, value@));
            }
            set_pair(&mut kept, key, value);
            i += 1;
        }
        proof {
            assert(given.subrange(0, i as int) =~= given);
        }
        Message { method: method, params: Some(kept) }
    }

    /// The wire text of the command under the given id.
    pub fn serialize(&self, id: u64) -> (r: String)
        ensures
            r@ == wire_text(id, self.method().wire_name(), self.params()),
    {
        let method = quote(self.method.as_str());
        match &self.params {
            None => frame_text(id, method.as_str(), None),
            Some(pairs) => {
                let mut quoted: Vec<(String, String)> = Vec::new();
                let mut i: usize = 0;
                while i < pairs.len()
                    invariant
                        i <= pairs.len(),
                        quoted@.len() == i,
                        forall|k: int|
                            0 <= k < i ==> (#[trigger] quoted@[k]).0@ == json_quoted(pairs@[k].0@)
                                && quoted@[k].1@ == json_quoted(pairs@[k].1@),
                    decreases pairs.len() - i,
                {
                    let key = quote(pairs[i].0.as_str());
                    let value = quote(pairs[i].1.as_str());
                    quoted.push((key, value));
                    i += 1;
                }
                proof {
                    assert(pair_texts(quoted@) =~= quoted_pairs(pair_texts(pairs@)));
                }
                frame_text(id, method.as_str(), Some(&quoted))
            },
        }
    }
}

/// An inbound frame: a response to the request with the given id, or an
/// event, which carries no id. Either holds the frame's text as received.
#[derive(Debug)]
pub enum Frame {
    Response { id: u64, payload: String },
    Event { payload: String },
}

/// What a `Frame` holds, with its text as a character sequence.
pub ghost enum FrameView {
    Response { id: u64, payload: Seq<char> },
    Event { payload: Seq<char> },
}

impl View for Frame {
    type V = FrameView;

    open spec fn view(&self) -> FrameView {
        match self {
            Frame::Response { id, payload } => FrameView::Response { id: *id, payload: payload@ },
            Frame::Event { payload } => FrameView::Event { payload: payload@ },
        }
    }
}

/// Why an inbound frame was dropped.
#[derive(Debug, Clone, Copy, PartialEq, Eq, Structural)]
pub enum ProtocolDecodeError {
    /// The text is not JSON.
    Malformed,
    /// The text is JSON but not an object.
    MissingStructure,
}

#[verifier::external_type_specification]
#[verifier::external_body]
pub struct ExJsonError(serde_json::Error);

/// What `serde_json` reads from a text: `None` where it rejects the text as
/// JSON; otherwise whether the document is an object, and the member under
/// `key` where the document has one that is a number representable as `u64`.
pub uninterp spec fn json_outline(raw: Seq<char>, key: Seq<char>) -> Option<(bool, Option<u64>)>;

/// Parses the text with `serde_json::from_str` into a `Value` and asks it
/// `is_object`, and `get(key)` followed by `as_u64`. The contract only names
/// the outcome; a rejected text is the parser's error.
#[verifier::external_body]
fn outline(raw: &str, key: &str) -> (r: Result<(bool, Option<u64>), serde_json::Error>)
    ensures
        match r {
            Ok(found) => json_outline(raw@, key@) == Some(found),
            Err(_) => json_outline(raw@, key@) == None::<(bool, Option<u64>)>,
        },
{
    match serde_json::from_str::<serde_json::Value>(raw) {
        Ok(value) => Ok((value.is_object(), value.get(key).and_then(|id| id.as_u64()))),
        Err(error) => Err(error),
    }
}

/// The frame that a text with the given outline is: an error where the text
/// is not a JSON object, a response where it has a numeric id, an event
/// otherwise.
pub open spec fn frame_of(found: Option<(bool, Option<u64>)>, raw: Seq<char>) -> Result<
    FrameView,
    ProtocolDecodeError,
> {
    match found {
        None => Err(ProtocolDecodeError::Malformed),
        Some((false, _)) => Err(ProtocolDecodeError::MissingStructure),
        Some((true, Some(id))) => Ok(FrameView::Response { id: id, payload: raw }),
        Some((true, None)) => Ok(FrameView::Event { payload: raw }),
    }
}

/// The view of a decoding result.
pub open spec fn decoded_view(r: Result<Frame, ProtocolDecodeError>) -> Result<
    FrameView,
    ProtocolDecodeError,
> {
    match r {
        Ok(frame) => Ok(frame@),
        Err(e) => Err(e),
    }
}

/// Classifies a frame from what was read of its text.
pub fn classify(found: Option<(bool, Option<u64>)>, raw: &str) -> (r: Result<
    Frame,
    ProtocolDecodeError,
>)
    ensures
        decoded_view(r) == frame_of(found, raw@),
{
    match found {
        None => Err(ProtocolDecodeError::Malformed),
        Some((false, _)) => Err(ProtocolDecodeError::MissingStructure),
        Some((true, Some(id))) => Ok(Frame::Response { id: id, payload: String::from_str(raw) }),
        Some((true, None)) => Ok(Frame::Event { payload: String::from_str(raw) }),
    }
}

/// Decodes one inbound frame. The member that correlates a response with
/// its request is `id`.
pub fn decode(raw: &str) -> (r: Result<Frame, ProtocolDecodeError>)
    ensures
        decoded_view(r) == frame_of(json_outline(raw@, "id"@), raw@),
{
    let found = match outline(raw, "id") {
        Ok(found) => Some(found),
        Err(_) => None,
    };
    classify(found, raw)
}

} // verus!
