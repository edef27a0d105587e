//! Telnet option negotiation: a byte-level state machine that strips
//! in-band control sequences from backend output and answers them.
use vstd::prelude::*;

verus! {

/// Interpret As Command.
pub const IAC: u8 = 255;

pub const DONT: u8 = 254;

pub const DO: u8 = 253;

pub const WONT: u8 = 252;

pub const WILL: u8 = 251;

/// Subnegotiation Begin.
pub const SB: u8 = 250;

/// Subnegotiation End.
pub const SE: u8 = 240;

pub const OPT_BINARY: u8 = 0;

pub const OPT_ECHO: u8 = 1;

/// Suppress Go Ahead.
pub const OPT_SGA: u8 = 3;

/// Negotiate About Window Size.
pub const OPT_NAWS: u8 = 31;

pub const OPT_LINEMODE: u8 = 34;

/// Where the parser stands between two bytes.
#[derive(Debug, Clone, Copy, PartialEq, Eq, Structural)]
pub enum TelnetState {
    Data,
    Iac,
    Will,
    Wont,
    Do,
    Dont,
    Sb,
    SbData,
    SbIac,
}

/// The part of a negotiator that persists from one `process` call to the next.
pub struct Negotiation {
    pub state: TelnetState,
    pub naws_sent: bool,
}

/// What a run of bytes does: the negotiation it leaves behind, the bytes
/// forwarded to the client and the bytes answered to the server.
pub struct Outcome {
    pub after: Negotiation,
    pub clean: Seq<u8>,
    pub reply: Seq<u8>,
}

/// A window-size subnegotiation for a terminal of `cols` x `rows`.
pub open spec fn naws_frame(cols: u16, rows: u16) -> Seq<u8> {
    seq![
        IAC,
        SB,
        OPT_NAWS,
        (cols / 256) as u8,
        (cols % 256) as u8,
        (rows / 256) as u8,
        (rows % 256) as u8,
        IAC,
        SE,
    ]
}

/// The window-size report this negotiator sends: 80 columns, 24 rows.
pub open spec fn naws_report() -> Seq<u8> {
    naws_frame(80, 24)
}

/// The report appended to a window-size answer, unless one went out before.
pub open spec fn naws_once(naws_sent: bool) -> Seq<u8> {
    if naws_sent {
        Seq::empty()
    } else {
        naws_report()
    }
}

/// Answer to the server's WILL `opt`.
pub open spec fn will_reply(opt: u8, naws_sent: bool) -> Seq<u8> {
    if opt == OPT_ECHO || opt == OPT_SGA || opt == OPT_BINARY {
        seq![IAC, DO, opt]
    } else if opt == OPT_NAWS {
        seq![IAC, DO, opt] + naws_once(naws_sent)
    } else {
        seq![IAC, DONT, opt]
    }
}

/// Answer to the server's DO `opt`.
pub open spec fn do_reply(opt: u8, naws_sent: bool) -> Seq<u8> {
    if opt == OPT_NAWS {
        seq![IAC, WILL, opt] + naws_once(naws_sent)
    } else if opt == OPT_BINARY {
        seq![IAC, WILL, opt]
    } else {
        seq![IAC, WONT, opt]
    }
}

pub open spec fn outcome(state: TelnetState, naws_sent: bool, clean: Seq<u8>, reply: Seq<u8>) -> Outcome {
    Outcome { after: Negotiation { state, naws_sent }, clean, reply }
}

/// The transition of one byte `b` from `n`.
pub open spec fn step(n: Negotiation, b: u8) -> Outcome {
    let none = Seq::<u8>::empty();
    match n.state {
        TelnetState::Data => if b == IAC {
            outcome(TelnetState::Iac, n.naws_sent, none, none)
        } else {
            outcome(TelnetState::Data, n.naws_sent, seq![b], none)
        },
        TelnetState::Iac => if b == IAC {
            outcome(TelnetState::Data, n.naws_sent, seq![IAC], none)
        } else if b == WILL {
            outcome(TelnetState::Will, n.naws_sent, none, none)
        } else if b == WONT {
            outcome(TelnetState::Wont, n.naws_sent, none, none)
        } else if b == DO {
            outcome(TelnetState::Do, n.naws_sent, none, none)
        } else if b == DONT {
            outcome(TelnetState::Dont, n.naws_sent, none, none)
        } else if b == SB {
            outcome(TelnetState::Sb, n.naws_sent, none, none)
        } else {
            outcome(TelnetState::Data, n.naws_sent, none, none)
        },
        TelnetState::Will => outcome(
            TelnetState::Data,
            n.naws_sent || b == OPT_NAWS,
            none,
            will_reply(b, n.naws_sent),
        ),
        TelnetState::Wont => outcome(TelnetState::Data, n.naws_sent, none, seq![IAC, DONT, b]),
        TelnetState::Do => outcome(
            TelnetState::Data,
            n.naws_sent || b == OPT_NAWS,
            none,
            do_reply(b, n.naws_sent),
        ),
        TelnetState::Dont => outcome(TelnetState::Data, n.naws_sent, none, seq![IAC, WONT, b]),
        TelnetState::Sb => outcome(TelnetState::SbData, n.naws_sent, none, none),
        TelnetState::SbData => if b == IAC {
            outcome(TelnetState::SbIac, n.naws_sent, none, none)
        } else {
            outcome(TelnetState::SbData, n.naws_sent, none, none)
        },
        TelnetState::SbIac => if b == SE {
            outcome(TelnetState::Data, n.naws_sent, none, none)
        } else {
            outcome(TelnetState::SbData, n.naws_sent, none, none)
        },
    }
}

/// Feeding `bytes` one after the other from `n`.
pub open spec fn run(n: Negotiation, bytes: Seq<u8>) -> Outcome
    decreases bytes.len(),
{
    if bytes.len() == 0 {
        outcome(n.state, n.naws_sent, Seq::empty(), Seq::empty())
    } else {
        let first = run(n, bytes.drop_last());
        let last = step(first.after, bytes.last());
        Outcome { after: last.after, clean: first.clean + last.clean, reply: first.reply + last.reply }
    }
}

/// Feeding `chunks` to successive `process` calls from `n`, the outputs of the
/// calls laid end to end.
pub open spec fn run_chunks(n: Negotiation, chunks: Seq<Seq<u8>>) -> Outcome
    decreases chunks.len(),
{
    if chunks.len() == 0 {
        outcome(n.state, n.naws_sent, Seq::empty(), Seq::empty())
    } else {
        let first = run_chunks(n, chunks.drop_last());
        let last = run(first.after, chunks.last());
        Outcome { after: last.after, clean: first.clean + last.clean, reply: first.reply + last.reply }
    }
}

/// A subnegotiation payload: every IAC in it is followed by a byte other
/// than SE (an escaped IAC among them), so no IAC SE closes it early.
pub open spec fn sb_payload(p: Seq<u8>) -> bool
    decreases p.len(),
{
    if p.len() == 0 {
        true
    } else if p[0] != IAC {
        sb_payload(p.drop_first())
    } else {
        p.len() >= 2 && p[1] != SE && sb_payload(p.skip(2))
    }
}

/// Running over `a` and then over `b` is running over `a + b`.
pub proof fn lemma_run_concat(n: Negotiation, a: Seq<u8>, b: Seq<u8>)
    ensures
        run(n, a + b).after == run(run(n, a).after, b).after,
        run(n, a + b).clean == run(n, a).clean + run(run(n, a).after, b).clean,
        run(n, a + b).reply == run(n, a).reply + run(run(n, a).after, b).reply,
    decreases b.len(),
{
    let m = run(n, a).after;
    if b.len() == 0 {
        assert(a + b =~= a);
        assert(run(n, a).clean + run(m, b).clean =~= run(n, a).clean);
        assert(run(n, a).reply + run(m, b).reply =~= run(n, a).reply);
    } else {
        lemma_run_concat(n, a, b.drop_last());
        assert((a + b).drop_last() =~= a + b.drop_last());
        assert((a + b).last() == b.last());
        let mid = run(m, b.drop_last());
        let last = step(mid.after, b.last());
        assert(run(n, a + b).clean =~= run(n, a).clean + (mid.clean + last.clean));
        assert(run(n, a + b).reply =~= run(n, a).reply + (mid.reply + last.reply));
    }
}

/// How the input is cut into chunks does not matter: successive `process`
/// calls give, laid end to end, what one call on all the bytes gives.
pub proof fn lemma_chunking_irrelevant(n: Negotiation, chunks: Seq<Seq<u8>>)
    ensures
        run_chunks(n, chunks).after == run(n, chunks.flatten()).after,
        run_chunks(n, chunks).clean == run(n, chunks.flatten()).clean,
        run_chunks(n, chunks).reply == run(n, chunks.flatten()).reply,
    decreases chunks.len(),
{
    chunks.lemma_flatten_and_flatten_alt_are_equivalent();
    if chunks.len() > 0 {
        lemma_chunking_irrelevant(n, chunks.drop_last());
        chunks.drop_last().lemma_flatten_and_flatten_alt_are_equivalent();
        lemma_run_concat(n, chunks.drop_last().flatten(), chunks.last());
    }
}

/// Outside a command, bytes without IAC pass through unchanged, with no reply.
pub proof fn lemma_plain_data_unchanged(n: Negotiation, bytes: Seq<u8>)
    requires
        n.state == TelnetState::Data,
        forall|i: int| 0 <= i < bytes.len() ==> bytes[i] != IAC,
    ensures
        run(n, bytes).clean == bytes,
        run(n, bytes).reply == Seq::<u8>::empty(),
        run(n, bytes).after == n,
    decreases bytes.len(),
{
    if bytes.len() > 0 {
        lemma_plain_data_unchanged(n, bytes.drop_last());
        assert(run(n, bytes).clean =~= bytes);
        assert(run(n, bytes).reply =~= Seq::<u8>::empty());
    }
}

/// Two WILL window-size offers, in two calls, are both accepted, and the
/// window-size report goes out only with the first, and only if none went
/// out before.
pub proof fn lemma_naws_reported_once(n: Negotiation)
    requires
        n.state == TelnetState::Data,
    ensures
        ({
            let offer = seq![IAC, WILL, OPT_NAWS];
            let first = run(n, offer);
            let second = run(first.after, offer);
            &&& first.reply == seq![IAC, DO, OPT_NAWS] + naws_once(n.naws_sent)
            &&& second.reply == seq![IAC, DO, OPT_NAWS]
            &&& first.clean + second.clean == Seq::<u8>::empty()
            &&& second.after == (Negotiation { state: TelnetState::Data, naws_sent: true })
        }),
{
    let offer = seq![IAC, WILL, OPT_NAWS];
    reveal_with_fuel(run, 4);
    assert(offer.drop_last().drop_last().drop_last() =~= Seq::<u8>::empty());
    assert(offer.drop_last().drop_last() =~= seq![IAC]);
    assert(offer.drop_last() =~= seq![IAC, WILL]);
    let first = run(n, offer);
    let second = run(first.after, offer);
    assert(first.reply =~= seq![IAC, DO, OPT_NAWS] + naws_once(n.naws_sent));
    assert(second.reply =~= seq![IAC, DO, OPT_NAWS]);
    assert(first.clean + second.clean =~= Seq::<u8>::empty());
}

/// A subnegotiation payload is consumed without output or reply.
pub proof fn lemma_payload_consumed(n: Negotiation, p: Seq<u8>)
    requires
        n.state == TelnetState::SbData,
        sb_payload(p),
    ensures
        run(n, p).after == n,
        run(n, p).clean == Seq::<u8>::empty(),
        run(n, p).reply == Seq::<u8>::empty(),
    decreases p.len(),
{
    if p.len() > 0 {
        let k: int = if p[0] != IAC { 1 } else { 2 };
        let head = p.take(k);
        let tail = p.skip(k);
        assert(head + tail =~= p);
        reveal_with_fuel(run, 3);
        if k == 1 {
            assert(tail =~= p.drop_first());
            assert(head.drop_last() =~= Seq::<u8>::empty());
            assert(head.last() == p[0]);
        } else {
            assert(head.drop_last().drop_last() =~= Seq::<u8>::empty());
            assert(head.drop_last() =~= seq![IAC]);
            assert(head.last() == p[1]);
        }
        lemma_run_concat(n, head, tail);
        assert(run(n, head).after == n);
        assert(run(n, head).clean =~= Seq::<u8>::empty());
        assert(run(n, head).reply =~= Seq::<u8>::empty());
        lemma_payload_consumed(n, tail);
        assert(run(n, p).clean =~= Seq::<u8>::empty());
        assert(run(n, p).reply =~= Seq::<u8>::empty());
    }
}

proof fn lemma_block_opens(n: Negotiation, opt: u8)
    requires
        n.state == TelnetState::Data,
    ensures
        run(n, seq![IAC, SB, opt]) == outcome(
            TelnetState::SbData,
            n.naws_sent,
            Seq::empty(),
            Seq::empty(),
        ),
{
    let open = seq![IAC, SB, opt];
    reveal_with_fuel(run, 4);
    assert(open.drop_last().drop_last().drop_last() =~= Seq::<u8>::empty());
    assert(open.drop_last().drop_last() =~= seq![IAC]);
    assert(open.drop_last() =~= seq![IAC, SB]);
    assert(run(n, open).clean =~= Seq::<u8>::empty());
    assert(run(n, open).reply =~= Seq::<u8>::empty());
}

proof fn lemma_block_closes(n: Negotiation)
    requires
        n.state == TelnetState::SbData,
    ensures
        run(n, seq![IAC, SE]) == outcome(
            TelnetState::Data,
            n.naws_sent,
            Seq::empty(),
            Seq::empty(),
        ),
{
    let close = seq![IAC, SE];
    reveal_with_fuel(run, 3);
    assert(close.drop_last().drop_last() =~= Seq::<u8>::empty());
    assert(close.drop_last() =~= seq![IAC]);
    assert(run(n, close).clean =~= Seq::<u8>::empty());
    assert(run(n, close).reply =~= Seq::<u8>::empty());
}

/// A whole subnegotiation block, met outside a command, yields nothing.
proof fn lemma_block_consumed(n: Negotiation, opt: u8, payload: Seq<u8>)
    requires
        n.state == TelnetState::Data,
        sb_payload(payload),
    ensures
        run(n, seq![IAC, SB, opt] + payload + seq![IAC, SE]) == outcome(
            n.state,
            n.naws_sent,
            Seq::empty(),
            Seq::empty(),
        ),
{
    let open = seq![IAC, SB, opt];
    let close = seq![IAC, SE];
    let inside = Negotiation { state: TelnetState::SbData, naws_sent: n.naws_sent };
    lemma_block_opens(n, opt);
    lemma_payload_consumed(inside, payload);
    lemma_block_closes(inside);
    lemma_run_concat(n, open, payload);
    lemma_run_concat(n, open + payload, close);
    let whole = run(n, open + payload + close);
    assert(whole.clean =~= Seq::<u8>::empty());
    assert(whole.reply =~= Seq::<u8>::empty());
}

/// A subnegotiation block `IAC SB opt payload IAC SE` leaves nothing in the
/// output, however the input is cut into chunks: what comes out is what the
/// bytes after the block give on their own.
pub proof fn lemma_subnegotiation_hidden(
    n: Negotiation,
    opt: u8,
    payload: Seq<u8>,
    rest: Seq<u8>,
    chunks: Seq<Seq<u8>>,
)
    requires
        n.state == TelnetState::Data,
        sb_payload(payload),
        chunks.flatten() == seq![IAC, SB, opt] + payload + seq![IAC, SE] + rest,
    ensures
        run_chunks(n, chunks).clean == run(n, rest).clean,
        run_chunks(n, chunks).reply == run(n, rest).reply,
        run_chunks(n, chunks).after == run(n, rest).after,
{
    let block = seq![IAC, SB, opt] + payload + seq![IAC, SE];
    lemma_chunking_irrelevant(n, chunks);
    lemma_block_consumed(n, opt, payload);
    lemma_run_concat(n, block, rest);
    assert(run(n, block).after == n);
    assert(Seq::<u8>::empty() + run(n, rest).clean =~= run(n, rest).clean);
    assert(Seq::<u8>::empty() + run(n, rest).reply =~= run(n, rest).reply);
}

/// Telnet state machine for one backend connection.
pub struct TelnetHandler {
    state: TelnetState,
    /// Responses to send back to the server, gathered during one call.
    responses: Vec<u8>,
    /// Clean data to forward to the client, gathered during one call.
    output: Vec<u8>,
    /// Whether the window size has been reported.
    naws_sent: bool,
}

impl View for TelnetHandler {
    type V = Negotiation;

    closed spec fn view(&self) -> Negotiation {
        Negotiation { state: self.state, naws_sent: self.naws_sent }
    }
}

impl TelnetHandler {
    pub fn new() -> (r: Self)
        ensures
            r@ == (Negotiation { state: TelnetState::Data, naws_sent: false }),
    {
        TelnetHandler {
            state: TelnetState::Data,
            responses: Vec::new(),
            output: Vec::new(),
            naws_sent: false,
        }
    }

    /// Window-size subnegotiation for a terminal of `cols` x `rows`.
    pub fn build_naws(cols: u16, rows: u16) -> (r: Vec<u8>)
        ensures
            r@ == naws_frame(cols, rows),
    {
        assert((cols >> 8u16) as u8 == (cols / 256) as u8 && (cols & 0xffu16) as u8 == (cols
            % 256) as u8) by (bit_vector);
        assert((rows >> 8u16) as u8 == (rows / 256) as u8 && (rows & 0xffu16) as u8 == (rows
            % 256) as u8) by (bit_vector);
        let r = vec![
            IAC,
            SB,
            OPT_NAWS,
            (cols >> 8) as u8,
            (cols & 0xff) as u8,
            (rows >> 8) as u8,
            (rows & 0xff) as u8,
            IAC,
            SE,
        ];
        assert(r@ =~= naws_frame(cols, rows));
        r
    }

    /// Processes bytes from the server; returns the data for the client and
    /// the responses for the server.
    pub fn process(&mut self, data: &[u8]) -> (r: (Vec<u8>, Vec<u8>))
        ensures
            final(self)@ == run(old(self)@, data@).after,
            r.0@ == run(old(self)@, data@).clean,
            r.1@ == run(old(self)@, data@).reply,
    {
        self.output.clear();
        self.responses.clear();
        let ghost start = self@;
        let mut i: usize = 0;
        while i < data.len()
            invariant
                0 <= i <= data@.len(),
                self@ == run(start, data@.subrange(0, i as int)).after,
                self.output@ == run(start, data@.subrange(0, i as int)).clean,
                self.responses@ == run(start, data@.subrange(0, i as int)).reply,
            decreases data@.len() - i,
        {
            self.process_byte(data[i]);
            assert(data@.subrange(0, i + 1).drop_last() =~= data@.subrange(0, i as int));
            i = i + 1;
        }
        assert(data@.subrange(0, i as int) =~= data@);
        let mut output = Vec::new();
        let mut responses = Vec::new();
        std::mem::swap(&mut output, &mut self.output);
        std::mem::swap(&mut responses, &mut self.responses);
        (output, responses)
    }

    fn process_byte(&mut self, byte: u8)
        ensures
            final(self)@ == step(old(self)@, byte).after,
            final(self).output@ == old(self).output@ + step(old(self)@, byte).clean,
            final(self).responses@ == old(self).responses@ + step(old(self)@, byte).reply,
    {
        match self.state {
            TelnetState::Data => {
                if byte == IAC {
                    self.state = TelnetState::Iac;
                } else {
                    self.output.push(byte);
                }
            },
            TelnetState::Iac => {
                if byte == IAC {
                    // An escaped IAC stands for a literal 255.
                    self.output.push(IAC);
                    self.state = TelnetState::Data;
                } else if byte == WILL {
                    self.state = TelnetState::Will;
                } else if byte == WONT {
                    self.state = TelnetState::Wont;
                } else if byte == DO {
                    self.state = TelnetState::Do;
                } else if byte == DONT {
                    self.state = TelnetState::Dont;
                } else if byte == SB {
                    self.state = TelnetState::Sb;
                } else {
                    // SE, or a command we do not know: ignored.
                    self.state = TelnetState::Data;
                }
            },
            TelnetState::Will => {
                self.handle_will(byte);
                self.state = TelnetState::Data;
            },
            TelnetState::Wont => {
                self.handle_wont(byte);
                self.state = TelnetState::Data;
            },
            TelnetState::Do => {
                self.handle_do(byte);
                self.state = TelnetState::Data;
            },
            TelnetState::Dont => {
                self.handle_dont(byte);
                self.state = TelnetState::Data;
            },
            TelnetState::Sb => {
                // The option byte that opens a subnegotiation is consumed.
                self.state = TelnetState::SbData;
            },
            TelnetState::SbData => {
                if byte == IAC {
                    self.state = TelnetState::SbIac;
                }
            },
            TelnetState::SbIac => {
                if byte == SE {
                    self.state = TelnetState::Data;
                } else {
                    // An escaped IAC, or any other byte, stays in the payload.
                    self.state = TelnetState::SbData;
                }
            },
        }
        assert(self.output@ =~= old(self).output@ + step(old(self)@, byte).clean);
        assert(self.responses@ =~= old(self).responses@ + step(old(self)@, byte).reply);
    }

    fn push3(v: &mut Vec<u8>, a: u8, b: u8, c: u8)
        ensures
            final(v)@ == old(v)@ + seq![a, b, c],
    {
        v.push(a);
        v.push(b);
        v.push(c);
        assert(v@ =~= old(v)@ + seq![a, b, c]);
    }

    fn send_naws_once(&mut self)
        ensures
            final(self).responses@ == old(self).responses@ + naws_once(old(self).naws_sent),
            final(self).naws_sent,
            final(self).state == old(self).state,
            final(self).output@ == old(self).output@,
    {
        if !self.naws_sent {
            let mut naws = Self::build_naws(80, 24);
            self.responses.append(&mut naws);
            self.naws_sent = true;
        } else {
            assert(self.responses@ =~= old(self).responses@ + naws_once(old(self).naws_sent));
        }
    }

    fn handle_will(&mut self, opt: u8)
        ensures
            final(self).responses@ == old(self).responses@ + will_reply(opt, old(self).naws_sent),
            final(self).naws_sent == (old(self).naws_sent || opt == OPT_NAWS),
            final(self).state == old(self).state,
            final(self).output@ == old(self).output@,
    {
        if opt == OPT_ECHO || opt == OPT_SGA || opt == OPT_BINARY {
            Self::push3(&mut self.responses, IAC, DO, opt);
        } else if opt == OPT_NAWS {
            Self::push3(&mut self.responses, IAC, DO, opt);
            self.send_naws_once();
            assert(self.responses@ =~= old(self).responses@ + will_reply(opt, old(self).naws_sent));
        } else {
            // Options we do not know are refused.
            Self::push3(&mut self.responses, IAC, DONT, opt);
        }
    }

    fn handle_wont(&mut self, opt: u8)
        ensures
            final(self).responses@ == old(self).responses@ + seq![IAC, DONT, opt],
            final(self).naws_sent == old(self).naws_sent,
            final(self).state == old(self).state,
            final(self).output@ == old(self).output@,
    {
        Self::push3(&mut self.responses, IAC, DONT, opt);
    }

    fn handle_do(&mut self, opt: u8)
        ensures
            final(self).responses@ == old(self).responses@ + do_reply(opt, old(self).naws_sent),
            final(self).naws_sent == (old(self).naws_sent || opt == OPT_NAWS),
            final(self).state == old(self).state,
            final(self).output@ == old(self).output@,
    {
        if opt == OPT_NAWS {
            Self::push3(&mut self.responses, IAC, WILL, opt);
            self.send_naws_once();
            assert(self.responses@ =~= old(self).responses@ + do_reply(opt, old(self).naws_sent));
        } else if opt == OPT_BINARY {
            Self::push3(&mut self.responses, IAC, WILL, opt);
        } else {
            Self::push3(&mut self.responses, IAC, WONT, opt);
        }
    }

    fn handle_dont(&mut self, opt: u8)
        ensures
            final(self).responses@ == old(self).responses@ + seq![IAC, WONT, opt],
            final(self).naws_sent == old(self).naws_sent,
            final(self).state == old(self).state,
            final(self).output@ == old(self).output@,
    {
        Self::push3(&mut self.responses, IAC, WONT, opt);
    }
}

} // verus!
