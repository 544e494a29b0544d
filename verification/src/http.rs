//! Talking to an OpenAI-compatible server: the endpoint, and how replies are put together.

use crate::document::opt_text;
use crate::json::{read_value, value_or_null};
use crate::provider::{calls, Call, CompletionResponse, Failure, ProviderError, Reply, ToolCall};
use crate::text::{chars_are, chars_of, has_prefix, slice_of, starts_with, string_of, trim, trimmed};
use vstd::prelude::*;

verus! {

/// The server that is asked unless the manifest says otherwise.
pub fn default_base_url() -> (r: &'static str)
    ensures
        r@ == "http://localhost:11434/v1"@,
{
    "http://localhost:11434/v1"
}

/// A text without the slashes at its end.
pub open spec fn unslashed(t: Seq<char>) -> Seq<char>
    decreases t.len(),
{
    if t.len() > 0 && t.last() == '/' {
        unslashed(t.drop_last())
    } else {
        t
    }
}

/// Where completions are asked for.
pub fn endpoint(base_url: &str) -> (r: String)
    ensures
        r@ == unslashed(base_url@) + "/chat/completions"@,
{
    let mut base = chars_of(base_url);
    while base.len() > 0 && base[base.len() - 1] == '/'
        invariant
            unslashed(base@) == unslashed(base_url@),
        decreases base@.len(),
    {
        let ghost before = base@;
        base.pop();
        assert(base@ =~= before.drop_last());
    }
    let mut r = string_of(base.as_slice());
    r.append("/chat/completions");
    r
}

/// The header that authorizes a request with an API key.
pub fn authorization(key: &str) -> (r: String)
    ensures
        r@ == "Bearer "@ + key@,
{
    let mut r = "Bearer ".to_owned();
    r.append(key);
    r
}

/// A tool call as the server writes it: the arguments are JSON inside a string.
#[derive(Clone, Debug, PartialEq, Eq)]
pub struct WireCall {
    /// The id of the call.
    pub id: String,
    /// The name of the tool.
    pub name: String,
    /// The arguments as text.
    pub arguments: String,
}

/// The call that a server means. Arguments that are not JSON count as null.
pub open spec fn meant(w: WireCall) -> Call {
    Call { id: w.id@, name: w.name@, arguments: value_or_null(w.arguments@) }
}

/// The calls that a server means.
pub open spec fn all_meant(ws: Seq<WireCall>) -> Seq<Call> {
    ws.map_values(|w: WireCall| meant(w))
}

fn read_calls(ws: Vec<WireCall>) -> (r: Vec<ToolCall>)
    ensures
        calls(r@) == all_meant(ws@),
{
    let mut r: Vec<ToolCall> = Vec::new();
    let mut i: usize = 0;
    while i < ws.len()
        invariant
            i <= ws@.len(),
            r@.len() == i,
            forall|k: int| 0 <= k < i ==> (#[trigger] r@[k])@ == meant(ws@[k]),
        decreases ws@.len() - i,
    {
        r.push(
            ToolCall {
                id: ws[i].id.clone(),
                name: ws[i].name.clone(),
                arguments: read_value(ws[i].arguments.as_str()),
            },
        );
        i += 1;
    }
    assert(calls(r@) =~= all_meant(ws@));
    r
}

/// The message in one choice of a reply.
#[derive(Clone, Debug, PartialEq, Eq)]
pub struct WireMessage {
    /// The text, if there is one.
    pub content: Option<String>,
    /// The tool calls.
    pub tool_calls: Vec<WireCall>,
}

/// The text of a message; empty where there is none.
pub open spec fn text_or_empty(content: Option<Seq<char>>) -> Seq<char> {
    match content {
        Some(text) => text,
        None => Seq::empty(),
    }
}

/// The reply that the choices of a server come down to: the first one.
pub fn map_response(choices: Vec<WireMessage>) -> (r: Result<CompletionResponse, ProviderError>)
    ensures
        match r {
            Ok(reply) => choices@.len() > 0 && reply@ == (Reply {
                content: text_or_empty(opt_text(choices@[0].content)),
                calls: all_meant(choices@[0].tool_calls@),
            }),
            Err(error) => choices@.len() == 0 && error@ == Failure::Backend(
                "response had no choices"@,
            ),
        },
{
    let mut choices = choices;
    if choices.len() == 0 {
        return Err(ProviderError::Backend("response had no choices".to_owned()));
    }
    let first = choices.remove(0);
    let content = match first.content {
        Some(text) => text,
        None => String::new(),
    };
    Ok(CompletionResponse { content, tool_calls: read_calls(first.tool_calls) })
}

/// What one line of a server's event stream holds.
#[derive(Clone, Debug, PartialEq, Eq)]
pub enum StreamLine {
    /// Nothing to read.
    Skip,
    /// The end of the stream.
    End,
    /// A chunk of the reply, as JSON text.
    Chunk(String),
}

/// What is behind `data:` on a line, trimmed.
pub open spec fn event_data(line: Seq<char>) -> Seq<char> {
    trim(line.skip(5))
}

/// Reads one line of an event stream: only lines that start with `data:` and hold something count,
/// and `[DONE]` ends the stream.
pub fn stream_line(line: &str) -> (r: StreamLine)
    ensures
        match r {
            StreamLine::Skip => !starts_with(line@, "data:"@) || event_data(line@).len() == 0,
            StreamLine::End => starts_with(line@, "data:"@) && event_data(line@) == "[DONE]"@
                && event_data(line@).len() > 0,
            StreamLine::Chunk(data) => starts_with(line@, "data:"@) && data@ == event_data(line@)
                && event_data(line@) != "[DONE]"@ && event_data(line@).len() > 0,
        },
{
    let chars = chars_of(line);
    if !has_prefix(chars.as_slice(), "data:") {
        return StreamLine::Skip;
    }
    proof {
        reveal_strlit("data:");
    }
    let rest = slice_of(chars.as_slice(), 5, chars.len());
    assert(rest@ =~= line@.skip(5));
    let data = trimmed(rest.as_slice());
    if data.len() == 0 {
        StreamLine::Skip
    } else if chars_are(data.as_slice(), "[DONE]") {
        StreamLine::End
    } else {
        StreamLine::Chunk(string_of(data.as_slice()))
    }
}

/// A piece of a tool call in a stream.
#[derive(Clone, Debug, PartialEq, Eq)]
pub struct CallFragment {
    /// Which call of the reply it belongs to.
    pub index: usize,
    /// The id of the call, if this piece has it.
    pub id: Option<String>,
    /// A piece of the tool's name.
    pub name: Option<String>,
    /// A piece of the arguments.
    pub arguments: Option<String>,
}

/// What one chunk of a stream adds to the reply.
#[derive(Clone, Debug, PartialEq, Eq)]
pub struct StreamDelta {
    /// A piece of the text.
    pub content: Option<String>,
    /// Pieces of tool calls.
    pub tool_calls: Vec<CallFragment>,
}

/// A tool call that is being put together.
pub struct Partial {
    /// The id so far.
    pub id: Seq<char>,
    /// The name so far.
    pub name: Seq<char>,
    /// The arguments so far.
    pub arguments: Seq<char>,
}

/// A tool call of which nothing has come yet.
pub open spec fn blank() -> Partial {
    Partial { id: Seq::empty(), name: Seq::empty(), arguments: Seq::empty() }
}

/// The calls with the blank ones added that it takes for `index` to be among them.
pub open spec fn widened(ps: Seq<Partial>, index: nat) -> Seq<Partial> {
    if ps.len() <= index {
        ps + Seq::new((index + 1 - ps.len()) as nat, |i: int| blank())
    } else {
        ps
    }
}

/// A call with a piece added: an id replaces, a name and arguments are appended.
pub open spec fn extended(p: Partial, f: CallFragment) -> Partial {
    Partial {
        id: match f.id {
            Some(id) => id@,
            None => p.id,
        },
        name: p.name + text_or_empty(opt_text(f.name)),
        arguments: p.arguments + text_or_empty(opt_text(f.arguments)),
    }
}

/// The calls with a piece added.
pub open spec fn pieced(ps: Seq<Partial>, f: CallFragment) -> Seq<Partial> {
    let wide = widened(ps, f.index as nat);
    wide.update(f.index as int, extended(wide[f.index as int], f))
}

/// The calls with the first `n` pieces added.
pub open spec fn all_pieced(ps: Seq<Partial>, fs: Seq<CallFragment>, n: nat) -> Seq<Partial>
    decreases n,
{
    if n == 0 || n > fs.len() {
        ps
    } else {
        pieced(all_pieced(ps, fs, (n - 1) as nat), fs[n - 1])
    }
}

/// A reply that is being put together.
#[verifier::ext_equal]
pub struct Building {
    /// The text so far.
    pub content: Seq<char>,
    /// The calls so far.
    pub calls: Seq<Partial>,
}

impl Building {
    /// The reply with a chunk added.
    pub open spec fn grown(self, d: StreamDelta) -> Building {
        Building {
            content: self.content + text_or_empty(opt_text(d.content)),
            calls: all_pieced(self.calls, d.tool_calls@, d.tool_calls@.len()),
        }
    }
}

/// A reply that is being put together from a stream.
#[derive(Debug)]
struct ReplyBuilder {
    content: String,
    calls: Vec<WireCall>,
}

/// A call as far as it has come.
pub open spec fn so_far(w: WireCall) -> Partial {
    Partial { id: w.id@, name: w.name@, arguments: w.arguments@ }
}

impl View for ReplyBuilder {
    type V = Building;

    closed spec fn view(&self) -> Building {
        Building {
            content: self.content@,
            calls: self.calls@.map_values(|w: WireCall| so_far(w)),
        }
    }
}

/// The call that its pieces come to.
pub open spec fn closed_call(p: Partial) -> Call {
    Call { id: p.id, name: p.name, arguments: value_or_null(p.arguments) }
}

impl ReplyBuilder {
    /// An empty reply.
    fn new() -> (r: Self)
        ensures
            r@ == (Building { content: Seq::empty(), calls: Seq::empty() }),
    {
        let r = ReplyBuilder { content: String::new(), calls: Vec::new() };
        assert(r@.calls =~= Seq::empty());
        r
    }

    /// Adds a piece of a call.
    fn piece(&mut self, f: &CallFragment)
        requires
            f.index < usize::MAX,
        ensures
            final(self)@.content == old(self)@.content,
            final(self)@.calls == pieced(old(self)@.calls, *f),
    {
        let ghost before = self@.calls;
        while self.calls.len() <= f.index
            invariant
                f.index < usize::MAX,
                self@.content == old(self)@.content,
                before == old(self)@.calls,
                before.len() <= self@.calls.len(),
                self@.calls.len() == self.calls@.len(),
                before.len() <= f.index ==> self@.calls.len() <= f.index + 1,
                before.len() > f.index ==> self@.calls.len() == before.len(),
                self@.calls.take(before.len() as int) == before,
                forall|i: int|
                    before.len() <= i < self@.calls.len() ==> #[trigger] self@.calls[i] == blank(),
            decreases f.index + 1 - self.calls@.len(),
        {
            let ghost at = self@.calls;
            self.calls.push(
                WireCall { id: String::new(), name: String::new(), arguments: String::new() },
            );
            let ghost added = so_far(self.calls@.last());
            assert(added.id =~= Seq::empty() && added.name =~= Seq::empty() && added.arguments
                =~= Seq::empty());
            assert(self@.calls =~= at.push(added));
            assert(self@.calls.take(before.len() as int) =~= before);
        }
        let ghost wide = self@.calls;
        assert(wide =~= widened(before, f.index as nat)) by {
            assert(wide.take(before.len() as int) =~= before);
        }
        let id = match &f.id {
            Some(id) => id.clone(),
            None => self.calls[f.index].id.clone(),
        };
        let mut name = self.calls[f.index].name.clone();
        if let Some(more) = &f.name {
            name.append(more.as_str());
        }
        let mut arguments = self.calls[f.index].arguments.clone();
        if let Some(more) = &f.arguments {
            arguments.append(more.as_str());
        }
        let call = WireCall { id, name, arguments };
        let ghost p = wide[f.index as int];
        assert(p.name + Seq::<char>::empty() =~= p.name);
        assert(p.arguments + Seq::<char>::empty() =~= p.arguments);
        assert(so_far(call) == extended(p, *f));
        self.calls.set(f.index, call);
        assert(self@.calls =~= wide.update(f.index as int, so_far(call)));
    }

    /// Adds a chunk. The result is the text that it brings, if it brings any.
    fn add(&mut self, delta: &StreamDelta) -> (r: Option<String>)
        requires
            forall|i: int|
                0 <= i < delta.tool_calls@.len() ==> (#[trigger] delta.tool_calls@[i]).index
                    < usize::MAX,
        ensures
            final(self)@ == old(self)@.grown(*delta),
            opt_text(r) == (match opt_text(delta.content) {
                Some(text) if text.len() > 0 => Some(text),
                _ => None,
            }),
    {
        let token = match &delta.content {
            Some(text) => if chars_of(text.as_str()).len() > 0 {
                self.content.append(text.as_str());
                Some(text.clone())
            } else {
                None
            },
            None => None,
        };
        assert(old(self)@.content + Seq::<char>::empty() =~= old(self)@.content);
        assert(self@.content =~= old(self)@.content + text_or_empty(opt_text(delta.content)));
        let ghost content = self@.content;
        let mut i: usize = 0;
        while i < delta.tool_calls.len()
            invariant
                i <= delta.tool_calls@.len(),
                forall|i: int|
                    0 <= i < delta.tool_calls@.len() ==> (#[trigger] delta.tool_calls@[i]).index
                        < usize::MAX,
                self@.content == content,
                self@.calls == all_pieced(old(self)@.calls, delta.tool_calls@, i as nat),
            decreases delta.tool_calls@.len() - i,
        {
            self.piece(&delta.tool_calls[i]);
            i += 1;
        }
        token
    }

    /// The whole reply.
    fn finish(self) -> (r: CompletionResponse)
        ensures
            r@ == (Reply {
                content: self@.content,
                calls: self@.calls.map_values(|p: Partial| closed_call(p)),
            }),
    {
        assert(all_meant(self.calls@) =~= self@.calls.map_values(|p: Partial| closed_call(p)));
        CompletionResponse { content: self.content, tool_calls: read_calls(self.calls) }
    }
}

/// What one line of a stream comes down to, once the host has decoded the chunk on it.
#[derive(Clone, Debug, PartialEq, Eq)]
pub enum StreamItem {
    /// Nothing: the line holds no chunk, or one that does not decode, or one without a choice.
    Skip,
    /// The end of the stream.
    End,
    /// What the first choice of a chunk adds.
    Delta(StreamDelta),
}

/// The contents of a [`StreamReader`].
#[verifier::ext_equal]
pub struct Reading {
    /// The reply so far.
    pub reply: Building,
    /// Whether the end has come.
    pub ended: bool,
}

impl Reading {
    /// The stream after one more line. Nothing is read behind the end.
    pub open spec fn read(self, item: StreamItem) -> Reading {
        if self.ended {
            self
        } else {
            match item {
                StreamItem::Skip => self,
                StreamItem::End => Reading { ended: true, ..self },
                StreamItem::Delta(d) => Reading { reply: self.reply.grown(d), ..self },
            }
        }
    }

    /// The text that one more line brings.
    pub open spec fn brings(self, item: StreamItem) -> Option<Seq<char>> {
        match item {
            StreamItem::Delta(d) if !self.ended => match opt_text(d.content) {
                Some(text) if text.len() > 0 => Some(text),
                _ => None,
            },
            _ => None,
        }
    }
}

/// Whether the pieces of a line can be told apart by their indices.
pub open spec fn indices_fit(item: StreamItem) -> bool {
    item matches StreamItem::Delta(d) ==> forall|i: int|
        0 <= i < d.tool_calls@.len() ==> (#[trigger] d.tool_calls@[i]).index < usize::MAX
}

/// Puts a reply together from the lines of a stream.
#[derive(Debug)]
pub struct StreamReader {
    reply: ReplyBuilder,
    ended: bool,
}

impl View for StreamReader {
    type V = Reading;

    closed spec fn view(&self) -> Reading {
        Reading { reply: self.reply@, ended: self.ended }
    }
}

impl StreamReader {
    /// A stream of which nothing has come yet.
    pub fn new() -> (r: Self)
        ensures
            r@ == (Reading {
                reply: Building { content: Seq::empty(), calls: Seq::empty() },
                ended: false,
            }),
    {
        StreamReader { reply: ReplyBuilder::new(), ended: false }
    }

    /// Whether the end has come.
    pub fn ended(&self) -> (r: bool)
        ensures
            r == self@.ended,
    {
        self.ended
    }

    /// Takes in one line. The result is the text that it brings, to be shown as it comes.
    pub fn read(&mut self, item: &StreamItem) -> (r: Option<String>)
        requires
            indices_fit(*item),
        ensures
            final(self)@ == old(self)@.read(*item),
            opt_text(r) == old(self)@.brings(*item),
    {
        if self.ended {
            return None;
        }
        match item {
            StreamItem::Skip => None,
            StreamItem::End => {
                self.ended = true;
                None
            },
            StreamItem::Delta(delta) => self.reply.add(delta),
        }
    }

    /// The whole reply.
    pub fn finish(self) -> (r: CompletionResponse)
        ensures
            r@ == (Reply {
                content: self@.reply.content,
                calls: self@.reply.calls.map_values(|p: Partial| closed_call(p)),
            }),
    {
        self.reply.finish()
    }
}

/// The stream after a series of lines.
pub open spec fn read_all(s: Reading, items: Seq<StreamItem>) -> Reading
    decreases items.len(),
{
    if items.len() == 0 {
        s
    } else {
        read_all(s, items.drop_last()).read(items.last())
    }
}

/// The texts that a series of lines brings, one behind the other.
pub open spec fn all_brought(s: Reading, items: Seq<StreamItem>) -> Seq<char>
    decreases items.len(),
{
    if items.len() == 0 {
        Seq::empty()
    } else {
        all_brought(s, items.drop_last()) + text_or_empty(
            read_all(s, items.drop_last()).brings(items.last()),
        )
    }
}

/// The texts that are shown as they come make up the text of the whole reply.
pub proof fn law_tokens_reassemble(s: Reading, items: Seq<StreamItem>)
    ensures
        read_all(s, items).reply.content == s.reply.content + all_brought(s, items),
    decreases items.len(),
{
    if items.len() > 0 {
        law_tokens_reassemble(s, items.drop_last());
        let before = read_all(s, items.drop_last());
        let head = all_brought(s, items.drop_last());
        let tail = text_or_empty(before.brings(items.last()));
        assert((s.reply.content + head) + tail =~= s.reply.content + (head + tail));
        assert(before.reply.content + Seq::<char>::empty() =~= before.reply.content);
        if let StreamItem::Delta(d) = items.last() {
            let text = text_or_empty(opt_text(d.content));
            if text.len() == 0 {
                assert(text =~= Seq::empty());
            }
        }
    } else {
        assert(s.reply.content + Seq::<char>::empty() =~= s.reply.content);
    }
}

/// Nothing that comes behind the end changes the reply.
pub proof fn law_nothing_behind_the_end(s: Reading, items: Seq<StreamItem>)
    requires
        s.ended,
    ensures
        read_all(s, items) == s,
    decreases items.len(),
{
    if items.len() > 0 {
        law_nothing_behind_the_end(s, items.drop_last());
    }
}

/// It does not matter how a server cuts a call into pieces: two pieces of the same call do what
/// one piece does that holds their texts joined.
pub proof fn law_fragments_join(
    ps: Seq<Partial>,
    a: CallFragment,
    b: CallFragment,
    whole: CallFragment,
)
    requires
        a.index == b.index == whole.index,
        opt_text(whole.id) == (match b.id {
            Some(_) => opt_text(b.id),
            None => opt_text(a.id),
        }),
        text_or_empty(opt_text(whole.name)) == text_or_empty(opt_text(a.name)) + text_or_empty(
            opt_text(b.name),
        ),
        text_or_empty(opt_text(whole.arguments)) == text_or_empty(opt_text(a.arguments))
            + text_or_empty(opt_text(b.arguments)),
    ensures
        pieced(pieced(ps, a), b) == pieced(ps, whole),
{
    let i = a.index as int;
    let wide = widened(ps, a.index as nat);
    let one = pieced(ps, a);
    assert(widened(one, a.index as nat) =~= one);
    let p = wide[i];
    let q = extended(extended(p, a), b);
    let r = extended(p, whole);
    assert(q.name =~= r.name);
    assert(q.arguments =~= r.arguments);
    assert(q == r);
    assert(pieced(one, b) =~= pieced(ps, whole));
}

/// The slashes at the end of a base address do not count, and nothing else of it is lost.
pub proof fn law_slashes_at_the_end_do_not_count(t: Seq<char>, n: nat)
    ensures
        unslashed(t).len() > 0 ==> unslashed(t).last() != '/',
        unslashed(t + Seq::new(n, |i: int| '/')) == unslashed(t),
        t.len() > 0 && t.last() != '/' ==> unslashed(t) == t,
        unslashed(t).len() <= t.len(),
        t.take(unslashed(t).len() as int) == unslashed(t),
        forall|k: int| unslashed(t).len() <= k < t.len() ==> #[trigger] t[k] == '/',
    decreases t.len(), n,
{
    if t.len() > 0 && t.last() == '/' {
        let d = t.drop_last();
        law_slashes_at_the_end_do_not_count(d, 0);
        assert(t.take(unslashed(t).len() as int) =~= d.take(unslashed(d).len() as int));
        assert forall|k: int| unslashed(t).len() <= k < t.len() implies #[trigger] t[k] == '/' by {
            if k < d.len() {
                assert(d[k] == t[k]);
            }
        }
    } else {
        assert(t.take(t.len() as int) =~= t);
    }
    let s = t + Seq::new(n, |i: int| '/');
    if n == 0 {
        assert(s =~= t);
    } else {
        let m = (n - 1) as nat;
        law_slashes_at_the_end_do_not_count(t, m);
        assert(s.drop_last() =~= t + Seq::new(m, |i: int| '/'));
        assert(s.last() == '/');
    }
}

} // verus!
