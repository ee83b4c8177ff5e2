//! A cursor over the token stream with one token of lookahead.

use vstd::prelude::*;
use quick_xml::events::Event;
use quick_xml::Reader;
use crate::bytes::bytes_eq;
use crate::de::error::{DeError, Failure};
use crate::de::token::{Token, TokenView};

verus! {

/// The XML tokenizer at some point of its input: a `quick_xml::Reader` over
/// the bytes of a document. What it has still to yield is known by `events`
/// and `broken` alone.
#[verifier::external_body]
pub struct Tokenizer<'a> {
    reader: Reader<&'a [u8]>,
}

/// The events that a tokenizer has still to yield before its input ends or
/// fails, in order. `None` stands for markup that carries no data: a comment,
/// a declaration, a processing instruction or a document type.
pub uninterp spec fn events(source: Tokenizer) -> Seq<Option<TokenView>>;

/// Whether a tokenizer's input fails after its `events`, rather than ends.
pub uninterp spec fn broken(source: Tokenizer) -> bool;

/// The events that the tokenizer yields for the document `input`, up to the
/// end of the document or to the first place where it is malformed. Empty
/// elements are expanded into an opening and a closing tag, text is trimmed,
/// and a run of text that is empty after trimming is no event.
pub uninterp spec fn xml_events(input: Seq<u8>) -> Seq<Option<TokenView>>;

/// Whether the document `input` is malformed after its `xml_events`.
pub uninterp spec fn xml_broken(input: Seq<u8>) -> bool;

/// `quick_xml::Reader::from_reader` on a byte slice, set to expand empty
/// elements, to check the names of closing tags and to trim text. The reader
/// has all of the document's events before it.
#[verifier::external_body]
fn open<'a>(input: &'a [u8]) -> (source: Tokenizer<'a>)
    ensures
        events(source) == xml_events(input@),
        broken(source) == xml_broken(input@),
{
    let mut reader = Reader::from_reader(input);
    reader.expand_empty_elements(true).check_end_names(true).trim_text(true);
    Tokenizer { reader }
}

/// `quick_xml::Reader::read_event`, with the event as a token of the
/// library's own: an opening tag with its name and its raw bytes, a closing
/// tag with its name, text and character data with their escaped bytes, and
/// `None` for any other markup.
///
/// It yields the first of the events that the reader has before it, which is
/// never the end of input, and leaves the others. With none left it reports
/// the failure of a broken input once; otherwise, and from then on, it yields
/// the end of input. It does not panic.
#[verifier::external_body]
fn read_event(source: &mut Tokenizer) -> (r: Result<Option<Token>, quick_xml::Error>)
    ensures
        events(*old(source)).len() > 0 ==> {
            &&& r matches Ok(e)
            &&& e matches Some(t) ==> events(*old(source))[0] == Some(t@) && t@ != TokenView::Eof
            &&& e is None ==> events(*old(source))[0] is None
            &&& events(*final(source)) == events(*old(source)).drop_first()
            &&& broken(*final(source)) == broken(*old(source))
        },
        events(*old(source)).len() == 0 ==> {
            &&& broken(*old(source)) ==> r is Err
            &&& !broken(*old(source)) ==> (r matches Ok(Some(t)) && t@ == TokenView::Eof)
            &&& events(*final(source)).len() == 0
            &&& !broken(*final(source))
        },
    no_unwind
{
    match source.reader.read_event(&mut Vec::new())? {
        Event::Start(e) => Ok(Some(Token::StartTag { name: e.name().to_vec(), tag: e.to_vec() })),
        Event::End(e) => Ok(Some(Token::EndTag { name: e.name().to_vec() })),
        Event::Text(e) | Event::CData(e) => Ok(Some(Token::Text { raw: e.to_vec(), escaped: true })),
        Event::Eof => Ok(Some(Token::Eof)),
        _ => Ok(None),
    }
}

/// The tokens among `events`, in order.
pub open spec fn data_tokens(events: Seq<Option<TokenView>>) -> Seq<TokenView>
    decreases events.len(),
{
    if events.len() == 0 {
        Seq::empty()
    } else {
        match events[0] {
            Some(t) => seq![t] + data_tokens(events.drop_first()),
            None => data_tokens(events.drop_first()),
        }
    }
}

/// What a cursor has before it: the tokens up to the end of the input, and
/// whether the input fails there.
pub struct Stream {
    pub tokens: Seq<TokenView>,
    pub broken: bool,
}

impl Stream {
    /// The next token: the first of `tokens`, the end of input after the
    /// last, or the failure of a broken input.
    pub open spec fn first(self) -> Result<TokenView, Failure> {
        if self.tokens.len() > 0 {
            Ok(self.tokens[0])
        } else if self.broken {
            Err(Failure::Xml)
        } else {
            Ok(TokenView::Eof)
        }
    }

    /// The stream behind the next token. Behind the end of the input the
    /// stream stays as it is.
    pub open spec fn rest(self) -> Stream {
        if self.tokens.len() > 0 && self.tokens[0] != TokenView::Eof {
            Stream { tokens: self.tokens.drop_first(), broken: self.broken }
        } else {
            self
        }
    }
}

/// Where a cursor takes its tokens from.
enum Source<'a> {
    /// From the tokenizer, on demand.
    Xml(Tokenizer<'a>),
    /// From tokens that are given, of which so many are taken.
    Given(Vec<Token>, usize),
}

/// The mathematical values of `tokens`.
pub open spec fn token_views(tokens: Seq<Token>) -> Seq<TokenView> {
    Seq::new(tokens.len(), |i: int| tokens[i]@)
}

impl<'a> Source<'a> {
    /// The tokens that the source has still to yield.
    spec fn tokens(self) -> Seq<TokenView> {
        match self {
            Source::Xml(tokenizer) => data_tokens(events(tokenizer)),
            Source::Given(tokens, at) => token_views(tokens@).skip(at as int),
        }
    }

    /// Whether the source fails behind its tokens.
    spec fn broken(self) -> bool {
        match self {
            Source::Xml(tokenizer) => broken(tokenizer),
            Source::Given(tokens, at) => false,
        }
    }

    /// Whether the source is at the end of its input: what it yields next,
    /// and from then on, is the end of input.
    spec fn at_end(self) -> bool {
        match self {
            Source::Xml(tokenizer) => events(tokenizer).len() == 0 && !broken(tokenizer),
            Source::Given(tokens, at) => at <= tokens@.len() && (at < tokens@.len()
                ==> tokens@[at as int]@ == TokenView::Eof),
        }
    }

    /// Given tokens are taken up to their number.
    spec fn wf(self) -> bool {
        match self {
            Source::Xml(tokenizer) => true,
            Source::Given(tokens, at) => at <= tokens@.len(),
        }
    }
}

/// The token stream of one document, read on demand, with one token of
/// lookahead.
pub struct Cursor<'a> {
    source: Source<'a>,
    peeked: Option<Token>,
}

impl<'a> View for Cursor<'a> {
    type V = Stream;

    closed spec fn view(&self) -> Stream {
        Stream {
            tokens: match self.peeked {
                Some(t) if t@ != TokenView::Eof => seq![t@] + self.source.tokens(),
                _ => self.source.tokens(),
            },
            broken: self.source.broken(),
        }
    }
}

/// What is reported where more elements of one name are open inside one
/// another than can be counted.
pub const NESTED_TOO_DEEPLY: &'static str = "elements nested too deeply";

/// Where skipping to the closing tag `name` ends, `depth` elements of that
/// name being open inside the one to close: the stream behind that tag, or
/// the failure where the input ends or fails before it, or where the depth
/// can no longer be counted.
pub open spec fn skip_subtree_spec(s: Stream, name: Seq<u8>, depth: nat) -> Result<Stream, Failure>
    decreases s.tokens.len(),
{
    if s.tokens.len() == 0 {
        if s.broken {
            Err(Failure::Xml)
        } else {
            Err(Failure::Eof)
        }
    } else {
        match s.tokens[0] {
            TokenView::Eof => Err(Failure::Eof),
            TokenView::EndTag { name: n } => if n != name {
                skip_subtree_spec(s.rest(), name, depth)
            } else if depth == 0 {
                Ok(s.rest())
            } else {
                skip_subtree_spec(s.rest(), name, (depth - 1) as nat)
            },
            TokenView::StartTag { name: n, tag } => if n != name {
                skip_subtree_spec(s.rest(), name, depth)
            } else if depth < usize::MAX {
                skip_subtree_spec(s.rest(), name, depth + 1)
            } else {
                Err(Failure::Unsupported(NESTED_TOO_DEEPLY@))
            },
            TokenView::Text { raw, escaped } => skip_subtree_spec(s.rest(), name, depth),
        }
    }
}

impl<'a> Cursor<'a> {
    /// An end of input in the lookahead is the end of the source's input.
    #[verifier::type_invariant]
    spec fn wf(&self) -> bool {
        &&& self.source.wf()
        &&& (self.peeked matches Some(t) && t@ == TokenView::Eof) ==> self.source.at_end()
    }

    /// A cursor at the start of `input`.
    pub fn new(input: &'a [u8]) -> (cursor: Cursor<'a>)
        ensures
            cursor@ == (Stream {
                tokens: data_tokens(xml_events(input@)),
                broken: xml_broken(input@),
            }),
    {
        Cursor { source: Source::Xml(open(input)), peeked: None }
    }

    /// A cursor before the tokens `tokens`, which end the input: behind
    /// them, or at the first of them that is the end of input, the cursor
    /// yields the end of input.
    pub fn from_tokens(tokens: Vec<Token>) -> (cursor: Cursor<'a>)
        ensures
            cursor@ == (Stream { tokens: token_views(tokens@), broken: false }),
    {
        assert(token_views(tokens@).skip(0) =~= token_views(tokens@));
        Cursor { source: Source::Given(tokens, 0), peeked: None }
    }

    /// Reads on to the next token and holds it as the lookahead.
    fn fill(&mut self) -> (r: Result<(), DeError>)
        requires
            old(self).peeked is None,
        ensures
            match old(self)@.first() {
                Ok(t) => {
                    &&& r is Ok
                    &&& final(self)@ == old(self)@
                    &&& final(self).peeked matches Some(p) && p@ == t
                },
                Err(f) => r matches Err(e) && e@ == f,
            },
    {
        proof {
            use_type_invariant(&*self);
        }
        let mut source = Source::Given(Vec::new(), 0);
        core::mem::swap(&mut self.source, &mut source);
        let ghost before = source;
        match source {
            Source::Xml(tokenizer) => {
                let mut tokenizer = tokenizer;
                let read = Self::read(&mut tokenizer);
                let mut source = Source::Xml(tokenizer);
                match read {
                    Ok(token) => {
                        proof {
                            assert(events(before->Xml_0).len() == 0 ==> data_tokens(
                                events(before->Xml_0),
                            ).len() == 0);
                            if token@ != TokenView::Eof {
                                assert((seq![token@] + source.tokens())[0] == token@);
                            }
                        }
                        core::mem::swap(&mut self.source, &mut source);
                        self.peeked = Some(token);
                        Ok(())
                    },
                    Err(e) => {
                        assert(events(before->Xml_0).len() == 0 ==> data_tokens(
                            events(before->Xml_0),
                        ).len() == 0);
                        core::mem::swap(&mut self.source, &mut source);
                        Err(e)
                    },
                }
            },
            Source::Given(tokens, at) => {
                let token = if at < tokens.len() {
                    tokens[at].duplicate()
                } else {
                    Token::Eof
                };
                let taken = match token {
                    Token::Eof => false,
                    _ => true,
                };
                let mut source = if taken {
                    Source::Given(tokens, at + 1)
                } else {
                    Source::Given(tokens, at)
                };
                proof {
                    if at < tokens@.len() {
                        assert(before.tokens()[0] == tokens@[at as int]@);
                        assert(before.tokens().drop_first() =~= token_views(tokens@).skip(at + 1));
                        if taken {
                            assert(seq![token@] + source.tokens() =~= before.tokens());
                        }
                    }
                }
                core::mem::swap(&mut self.source, &mut source);
                self.peeked = Some(token);
                Ok(())
            },
        }
    }

    /// Reads on to the next token of the tokenizer.
    fn read(tokenizer: &mut Tokenizer) -> (r: Result<Token, DeError>)
        ensures
            match (Stream {
                tokens: data_tokens(events(*old(tokenizer))),
                broken: broken(*old(tokenizer)),
            }).first() {
                Ok(t) => {
                    &&& r matches Ok(p)
                    &&& p@ == t
                    &&& t == TokenView::Eof ==> events(*final(tokenizer)).len() == 0 && !broken(
                        *final(tokenizer),
                    )
                    &&& t != TokenView::Eof ==> seq![t] + data_tokens(events(*final(tokenizer)))
                        == data_tokens(events(*old(tokenizer)))
                    &&& t == TokenView::Eof ==> data_tokens(events(*final(tokenizer)))
                        == data_tokens(events(*old(tokenizer)))
                    &&& broken(*final(tokenizer)) == broken(*old(tokenizer))
                },
                Err(f) => r matches Err(e) && e@ == f,
            },
    {
        loop
            invariant
                data_tokens(events(*tokenizer)) == data_tokens(events(*old(tokenizer))),
                broken(*tokenizer) == broken(*old(tokenizer)),
                events(*tokenizer).len() <= events(*old(tokenizer)).len(),
            decreases events(*tokenizer).len(),
        {
            let ghost before = events(*tokenizer);
            match read_event(tokenizer) {
                Err(e) => {
                    assert(data_tokens(before) =~= Seq::empty());
                    return Err(DeError::Xml(e));
                },
                Ok(Some(t)) => {
                    proof {
                        if before.len() > 0 {
                            assert(data_tokens(before) == seq![t@] + data_tokens(
                                before.drop_first(),
                            ));
                            assert((seq![t@] + data_tokens(before.drop_first()))[0] == t@);
                        } else {
                            assert(data_tokens(before) =~= Seq::empty());
                            assert(data_tokens(events(*tokenizer)) =~= Seq::empty());
                        }
                    }
                    return Ok(t);
                },
                Ok(None) => {
                    assert(data_tokens(before) == data_tokens(before.drop_first()));
                },
            }
        }
    }

    /// A source at the end of its input has no token before it but, where
    /// tokens are given, the end of input itself.
    proof fn lemma_at_end(&self)
        ensures
            self.source.wf() && self.source.at_end() ==> !self.source.broken() && (
            self.source.tokens().len() == 0 || self.source.tokens()[0] == TokenView::Eof),
    {
        match self.source {
            Source::Xml(tokenizer) => {
                assert(events(tokenizer).len() == 0 ==> data_tokens(events(tokenizer)).len() == 0);
            },
            Source::Given(tokens, at) => {},
        }
    }

    /// The next token, which stays before the cursor: a second `peek` yields
    /// it again.
    pub fn peek(&mut self) -> (r: Result<&Token, DeError>)
        ensures
            match old(self)@.first() {
                Ok(t) => r matches Ok(p) && p@ == t && final(self)@ == old(self)@,
                Err(f) => r matches Err(e) && e@ == f,
            },
    {
        proof {
            use_type_invariant(&*self);
        }
        if self.peeked.is_none() {
            match self.fill() {
                Err(e) => {
                    return Err(e);
                },
                Ok(()) => {},
            }
        } else {
            proof {
                self.lemma_at_end();
            }
        }
        Ok(self.peeked.as_ref().unwrap())
    }

    /// Takes the next token from the stream.
    pub fn next(&mut self) -> (r: Result<Token, DeError>)
        ensures
            match old(self)@.first() {
                Ok(t) => r matches Ok(p) && p@ == t && final(self)@ == old(self)@.rest(),
                Err(f) => r matches Err(e) && e@ == f,
            },
    {
        proof {
            use_type_invariant(&*self);
        }
        if self.peeked.is_none() {
            match self.fill() {
                Err(e) => {
                    return Err(e);
                },
                Ok(()) => {},
            }
        }
        proof {
            use_type_invariant(&*self);
            self.lemma_at_end();
        }
        let ghost mid = self@;
        let mut taken: Option<Token> = None;
        core::mem::swap(&mut self.peeked, &mut taken);
        let token = taken.unwrap();
        proof {
            if token@ != TokenView::Eof {
                assert(mid.tokens.drop_first() =~= self.source.tokens());
            }
        }
        Ok(token)
    }

    /// Discards the tokens up to and including the closing tag `name` that
    /// ends the element the cursor is in. Elements of the same name inside it
    /// are counted, so that the closing tag of one of them does not end the
    /// skip.
    pub fn skip_subtree(&mut self, name: &[u8]) -> (r: Result<(), DeError>)
        ensures
            match skip_subtree_spec(old(self)@, name@, 0) {
                Ok(s) => r is Ok && final(self)@ == s,
                Err(f) => r matches Err(e) && e@ == f,
            },
    {
        let mut depth: usize = 0;
        loop
            invariant
                skip_subtree_spec(self@, name@, depth as nat) == skip_subtree_spec(
                    old(self)@,
                    name@,
                    0,
                ),
            decreases self@.tokens.len(),
        {
            let ghost before = self@;
            match self.next() {
                Err(e) => {
                    return Err(e);
                },
                Ok(Token::Eof) => {
                    return Err(DeError::Eof);
                },
                Ok(Token::EndTag { name: n }) => {
                    if bytes_eq(n.as_slice(), name) {
                        if depth == 0 {
                            return Ok(());
                        }
                        depth -= 1;
                    }
                },
                Ok(Token::StartTag { name: n, tag }) => {
                    if bytes_eq(n.as_slice(), name) {
                        if depth == usize::MAX {
                            return Err(DeError::Unsupported(NESTED_TOO_DEEPLY));
                        }
                        depth += 1;
                    }
                },
                Ok(Token::Text { raw, escaped }) => {},
            }
        }
    }
}

} // verus!
