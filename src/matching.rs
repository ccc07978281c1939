use vstd::prelude::*;
use vstd::string::*;
use vstd::utf8::{encode_scalar, encode_utf8, encode_utf8_first_scalar};
use crate::template::{Template, bank_view, regex_finds, regex_groups, spans_within};

verus! {

/// Whether the span of one capture group covers byte position `p`.
pub open spec fn span_covers(span: Option<(usize, usize)>, p: int) -> bool {
    match span {
        Some((start, end)) => start <= p < end,
        None => false,
    }
}

/// Whether byte position `p` lies inside some capture group (group 0, the
/// whole match, does not count).
pub open spec fn covered(groups: Seq<Option<(usize, usize)>>, p: int) -> bool {
    exists|g: int| 1 <= g < groups.len() && span_covers(#[trigger] groups[g], p)
}

/// The byte offset at which character `k` of `text` starts in its UTF-8 form.
pub open spec fn char_start(text: Seq<char>, k: int) -> int {
    encode_utf8(text.take(k)).len() as int
}

/// The mask of `text`, one entry per character: '1' where the character
/// starts inside a capture group, '0' everywhere else.
pub open spec fn mask_of(groups: Seq<Option<(usize, usize)>>, text: Seq<char>) -> Seq<char> {
    Seq::new(text.len(), |k: int| if covered(groups, char_start(text, k)) { '1' } else { '0' })
}

/// Encoding a concatenation encodes each part in turn.
proof fn lemma_encode_concat(a: Seq<char>, b: Seq<char>)
    ensures
        encode_utf8(a + b) == encode_utf8(a) + encode_utf8(b),
    decreases a.len(),
{
    if a.len() == 0 {
        assert(a + b =~= b);
        assert(encode_utf8(a) + encode_utf8(b) =~= encode_utf8(b));
    } else {
        lemma_encode_concat(a.drop_first(), b);
        assert((a + b).drop_first() =~= a.drop_first() + b);
        assert((a + b)[0] == a[0]);
        assert(encode_utf8(a + b) =~= encode_utf8(a) + encode_utf8(b));
    }
}

/// The indices below `k` of the templates that match `text`, ascending.
pub open spec fn matches_below(pats: Seq<Seq<char>>, text: Seq<char>, k: int) -> Seq<usize>
    decreases k,
{
    if k <= 0 {
        seq![]
    } else {
        let prev = matches_below(pats, text, k - 1);
        if regex_finds(pats[k - 1], text) {
            prev.push((k - 1) as usize)
        } else {
            prev
        }
    }
}

/// What matching a message against a bank gives, as mathematical values.
pub enum MatchModel {
    Matched { idx: usize, mask: Seq<char> },
    Ambiguous { indices: Seq<usize> },
    NoMatch,
}

/// The outcome of matching `text` against the anchored sources `pats`: the one
/// matching template and its mask, every matching index when more than one
/// matches, or no match.
pub open spec fn match_model(pats: Seq<Seq<char>>, text: Seq<char>) -> MatchModel {
    let found = matches_below(pats, text, pats.len() as int);
    if found.len() == 0 {
        MatchModel::NoMatch
    } else if found.len() == 1 {
        let idx = found[0];
        MatchModel::Matched {
            idx,
            mask: mask_of(regex_groups(pats[idx as int], text), text),
        }
    } else {
        MatchModel::Ambiguous { indices: found }
    }
}

/// The result of matching one message against the template bank.
pub enum MatchOutcome {
    Matched { idx: usize, mask: String },
    Ambiguous { indices: Vec<usize> },
    NoMatch,
}

impl View for MatchOutcome {
    type V = MatchModel;

    open spec fn view(&self) -> MatchModel {
        match self {
            MatchOutcome::Matched { idx, mask } => MatchModel::Matched { idx: *idx, mask: mask@ },
            MatchOutcome::Ambiguous { indices } => MatchModel::Ambiguous { indices: indices@ },
            MatchOutcome::NoMatch => MatchModel::NoMatch,
        }
    }
}

/// The elements of `matches_below` are exactly the matching indices below
/// `k`, in strictly ascending order.
pub proof fn lemma_matches_below(pats: Seq<Seq<char>>, text: Seq<char>, k: int)
    requires
        0 <= k <= pats.len(),
        pats.len() <= usize::MAX,
    ensures
        forall|x: usize|
            matches_below(pats, text, k).contains(x) <==> (x < k && regex_finds(
                pats[x as int],
                text,
            )),
        forall|a: int, b: int|
            0 <= a < b < matches_below(pats, text, k).len() ==> matches_below(pats, text, k)[a]
                < matches_below(pats, text, k)[b],
        forall|a: int|
            0 <= a < matches_below(pats, text, k).len() ==> matches_below(pats, text, k)[a] < k,
    decreases k,
{
    if k > 0 {
        lemma_matches_below(pats, text, k - 1);
        let prev = matches_below(pats, text, k - 1);
        if regex_finds(pats[k - 1], text) {
            let cur = prev.push((k - 1) as usize);
            assert forall|x: usize| cur.contains(x) <==> (x < k && regex_finds(pats[x as int], text)) by {
                if x == k - 1 {
                    assert(cur[prev.len() as int] == x);
                    assert(cur.contains(x));
                } else if cur.contains(x) {
                    let j = choose|j: int| 0 <= j < cur.len() && cur[j] == x;
                    assert(cur[prev.len() as int] == k - 1);
                    assert(j < prev.len());
                    assert(prev[j] == x);
                    assert(prev.contains(x));
                } else if x < k && regex_finds(pats[x as int], text) {
                    assert(prev.contains(x));
                    let j = choose|j: int| 0 <= j < prev.len() && prev[j] == x;
                    assert(cur[j] == x);
                    assert(cur.contains(x));
                }
            }
        }
    }
}

fn covers(groups: &Vec<Option<(usize, usize)>>, p: usize) -> (r: bool)
    ensures
        r == covered(groups@, p as int),
{
    let mut g: usize = 1;
    while g < groups.len()
        invariant
            1 <= g,
            forall|h: int| 1 <= h < g && h < groups@.len() ==> !span_covers(#[trigger] groups@[h], p as int),
        decreases groups@.len() - g,
    {
        if let Some((start, end)) = groups[g] {
            if start <= p && p < end {
                assert(span_covers(groups@[g as int], p as int));
                return true;
            }
        }
        g = g + 1;
    }
    false
}

fn build_mask(groups: &Vec<Option<(usize, usize)>>, text: &str) -> (r: String)
    ensures
        r@ == mask_of(groups@, text@),
{
    let bytes = text.as_bytes();
    let n = bytes.len();
    let chars = text.unicode_len();
    let mut mask = String::new();
    let mut k: usize = 0;
    let mut off: usize = 0;
    proof {
        assert(text@.take(0) =~= Seq::<char>::empty());
        assert(text@.skip(0) =~= text@);
        assert(bytes@.subrange(0, n as int) =~= bytes@);
    }
    while k < chars
        invariant
            bytes@ == encode_utf8(text@),
            n == bytes@.len(),
            chars == text@.len(),
            k <= chars,
            off <= n,
            off == char_start(text@, k as int),
            bytes@.subrange(off as int, n as int) == encode_utf8(text@.skip(k as int)),
            mask@ =~= Seq::new(
                k as nat,
                |q: int| if covered(groups@, char_start(text@, q)) { '1' } else { '0' },
            ),
        decreases chars - k,
    {
        let ghost rest = text@.skip(k as int);
        let ghost c = text@[k as int];
        proof {
            reveal_strlit("1");
            reveal_strlit("0");
            encode_utf8_first_scalar(rest);
            assert(rest[0] == c);
            assert(rest.drop_first() =~= text@.skip(k + 1));
            assert(encode_utf8(rest) =~= encode_scalar(c as u32) + encode_utf8(text@.skip(k + 1)));
            assert(text@.take(k + 1) =~= text@.take(k as int) + seq![c]);
            lemma_encode_concat(text@.take(k as int), seq![c]);
            assert(seq![c].drop_first() =~= Seq::<char>::empty());
            assert(encode_utf8(Seq::<char>::empty()) =~= Seq::<u8>::empty());
            assert(encode_utf8(seq![c]) == encode_scalar(seq![c][0] as u32) + encode_utf8(
                seq![c].drop_first(),
            ));
            assert(encode_utf8(seq![c]) =~= encode_scalar(c as u32));
        }
        if covers(groups, off) {
            mask.append("1");
        } else {
            mask.append("0");
        }
        let lead = bytes[off];
        let width: usize = if lead <= 0x7f {
            1
        } else if lead <= 0xdf {
            2
        } else if lead <= 0xef {
            3
        } else {
            4
        };
        assert(width == encode_scalar(c as u32).len());
        let ghost before = off;
        off = off + width;
        k = k + 1;
        proof {
            let tail = bytes@.subrange(before as int, n as int);
            assert(tail == encode_scalar(c as u32) + encode_utf8(text@.skip(k as int)));
            assert(bytes@.subrange(off as int, n as int) =~= tail.subrange(
                width as int,
                tail.len() as int,
            ));
            assert(bytes@.subrange(off as int, n as int) =~= encode_utf8(text@.skip(k as int)));
        }
        assert(mask@ =~= Seq::new(
            k as nat,
            |q: int| if covered(groups@, char_start(text@, q)) { '1' } else { '0' },
        ));
    }
    mask
}

/// Matches `text` against every template of `bank`, in order and without
/// stopping at the first hit. Succeeds only when exactly one template matches,
/// with a mask of one entry per character of `text`; reports every matching
/// index when more than one does, and no match when none does.
pub fn match_message(bank: &Vec<Template>, text: &str) -> (r: MatchOutcome)
    ensures
        r@ == match_model(bank_view(bank@), text@),
{
    let ghost pats = bank_view(bank@);
    let mut found: Vec<usize> = Vec::new();
    let mut i: usize = 0;
    while i < bank.len()
        invariant
            i <= bank@.len(),
            pats == bank_view(bank@),
            found@ == matches_below(pats, text@, i as int),
        decreases bank@.len() - i,
    {
        assert(pats[i as int] == bank@[i as int]@);
        if bank[i].is_match(text) {
            found.push(i);
        }
        i = i + 1;
    }
    if found.len() == 0 {
        MatchOutcome::NoMatch
    } else if found.len() == 1 {
        let idx = found[0];
        proof {
            lemma_matches_below(pats, text@, pats.len() as int);
            assert(found@.contains(idx));
        }
        assert(pats[idx as int] == bank@[idx as int]@);
        assert(regex_finds(pats[idx as int], text@));
        match bank[idx].capture_spans(text) {
            Some(groups) => {
                let mask = build_mask(&groups, text);
                MatchOutcome::Matched { idx, mask }
            },
            // the template matched above, so its captures are always present
            None => MatchOutcome::NoMatch,
        }
    } else {
        MatchOutcome::Ambiguous { indices: found }
    }
}

/// When exactly one template `i` matches, matching succeeds with index `i` and
/// a mask as long as the message in characters, with '1' exactly at the
/// characters that start inside that template's capture groups and '0'
/// elsewhere.
pub proof fn lemma_unique_match(pats: Seq<Seq<char>>, text: Seq<char>, i: int)
    requires
        pats.len() <= usize::MAX,
        0 <= i < pats.len(),
        regex_finds(pats[i], text),
        forall|j: int| 0 <= j < pats.len() && j != i ==> !regex_finds(#[trigger] pats[j], text),
    ensures
        match_model(pats, text) is Matched,
        match_model(pats, text)->Matched_idx == i,
        match_model(pats, text)->Matched_mask.len() == text.len(),
        forall|k: int|
            0 <= k < text.len() ==> {
                let mask = match_model(pats, text)->Matched_mask;
                &&& (mask[k] == '1' <==> #[trigger] covered(
                    regex_groups(pats[i], text),
                    char_start(text, k),
                ))
                &&& (mask[k] == '0' <==> !covered(regex_groups(pats[i], text), char_start(text, k)))
            },
{
    let found = matches_below(pats, text, pats.len() as int);
    lemma_matches_below(pats, text, pats.len() as int);
    assert(found.contains(i as usize));
    if found.len() >= 2 {
        assert(found[0] < found[1]);
        assert(found.contains(found[0]) && found.contains(found[1]));
        assert(regex_finds(pats[found[0] as int], text));
        assert(regex_finds(pats[found[1] as int], text));
    }
    assert(found.len() == 1);
    assert(found.contains(found[0]));
}

/// When two different templates match, matching fails as ambiguous and names
/// every matching index, in ascending order.
pub proof fn lemma_ambiguous_match(pats: Seq<Seq<char>>, text: Seq<char>, i: int, j: int)
    requires
        pats.len() <= usize::MAX,
        0 <= i < pats.len(),
        0 <= j < pats.len(),
        i != j,
        regex_finds(pats[i], text),
        regex_finds(pats[j], text),
    ensures
        match_model(pats, text) is Ambiguous,
        forall|x: usize|
            match_model(pats, text)->Ambiguous_indices.contains(x) <==> (x < pats.len()
                && regex_finds(pats[x as int], text)),
        forall|a: int, b: int|
            0 <= a < b < match_model(pats, text)->Ambiguous_indices.len() ==> match_model(
                pats,
                text,
            )->Ambiguous_indices[a] < match_model(pats, text)->Ambiguous_indices[b],
{
    let found = matches_below(pats, text, pats.len() as int);
    lemma_matches_below(pats, text, pats.len() as int);
    assert(found.contains(i as usize));
    assert(found.contains(j as usize));
    if found.len() < 2 {
        let a = choose|a: int| 0 <= a < found.len() && found[a] == i as usize;
        let b = choose|b: int| 0 <= b < found.len() && found[b] == j as usize;
        assert(a == b);
    }
}

/// When no template matches, matching reports no match.
pub proof fn lemma_no_match(pats: Seq<Seq<char>>, text: Seq<char>)
    requires
        pats.len() <= usize::MAX,
        forall|j: int| 0 <= j < pats.len() ==> !regex_finds(#[trigger] pats[j], text),
    ensures
        match_model(pats, text) is NoMatch,
{
    let found = matches_below(pats, text, pats.len() as int);
    lemma_matches_below(pats, text, pats.len() as int);
    if found.len() > 0 {
        assert(found.contains(found[0]));
    }
}

/// Every successful match carries a mask exactly as long as the message in
/// characters, made only of '0' and '1'.
pub proof fn lemma_mask_shape(pats: Seq<Seq<char>>, text: Seq<char>)
    requires
        match_model(pats, text) is Matched,
    ensures
        match_model(pats, text)->Matched_mask.len() == text.len(),
        forall|p: int|
            0 <= p < text.len() ==> #[trigger] match_model(
                pats,
                text,
            )->Matched_mask[p] == '0' || match_model(pats, text)->Matched_mask[p] == '1',
{
}

/// Matching the same message against the same bank twice gives the same
/// outcome.
pub proof fn lemma_match_deterministic(
    bank: Seq<Template>,
    text: Seq<char>,
    first: MatchOutcome,
    second: MatchOutcome,
)
    requires
        first@ == match_model(bank_view(bank), text),
        second@ == match_model(bank_view(bank), text),
    ensures
        first@ == second@,
{
}

/// A job handed to a worker: a message to match, or the signal to stop.
pub enum Request {
    Parse(String),
    EndOfStream,
}

/// A matched message, its mask and the index of the template it matched.
pub struct Response {
    pub msg: String,
    pub msk: String,
    pub idx: u16,
}

/// The character of a decimal digit.
pub open spec fn digit_char(d: nat) -> char {
    if d == 0 {
        '0'
    } else if d == 1 {
        '1'
    } else if d == 2 {
        '2'
    } else if d == 3 {
        '3'
    } else if d == 4 {
        '4'
    } else if d == 5 {
        '5'
    } else if d == 6 {
        '6'
    } else if d == 7 {
        '7'
    } else if d == 8 {
        '8'
    } else {
        '9'
    }
}

/// The decimal text of `n`, without leading zeros.
pub open spec fn decimal(n: nat) -> Seq<char>
    decreases n,
{
    if n < 10 {
        seq![digit_char(n)]
    } else {
        decimal(n / 10) + seq![digit_char(n % 10)]
    }
}

fn digit_str(d: u16) -> (r: &'static str)
    requires
        d < 10,
    ensures
        r@ == seq![digit_char(d as nat)],
{
    proof {
        reveal_strlit("0");
        reveal_strlit("1");
        reveal_strlit("2");
        reveal_strlit("3");
        reveal_strlit("4");
        reveal_strlit("5");
        reveal_strlit("6");
        reveal_strlit("7");
        reveal_strlit("8");
        reveal_strlit("9");
    }
    if d == 0 {
        "0"
    } else if d == 1 {
        "1"
    } else if d == 2 {
        "2"
    } else if d == 3 {
        "3"
    } else if d == 4 {
        "4"
    } else if d == 5 {
        "5"
    } else if d == 6 {
        "6"
    } else if d == 7 {
        "7"
    } else if d == 8 {
        "8"
    } else {
        "9"
    }
}

fn push_decimal(s: &mut String, n: u16)
    ensures
        final(s)@ == old(s)@ + decimal(n as nat),
    decreases n,
{
    if n >= 10 {
        push_decimal(s, n / 10);
    }
    s.append(digit_str(n % 10));
    assert(final(s)@ =~= old(s)@ + decimal(n as nat));
}

impl Response {
    /// The three fields of the output record: message, mask, and template
    /// index as decimal text.
    pub fn into_csv_record(self) -> (r: [String; 3])
        ensures
            r@[0]@ == self.msg@,
            r@[1]@ == self.msk@,
            r@[2]@ == decimal(self.idx as nat),
    {
        let mut idx = String::new();
        push_decimal(&mut idx, self.idx);
        assert(idx@ =~= decimal(self.idx as nat));
        [self.msg, self.msk, idx]
    }
}

/// What one attempt to take an item from a queue gave.
pub enum RecvEvent<T> {
    /// An item was taken.
    Received(T),
    /// The queue was empty, and its producer still open.
    Empty,
    /// Every producer is gone and the queue is empty.
    Closed,
}

/// Why a message was dropped.
pub enum MatchFailure {
    /// More than one template matched; every matching index, ascending.
    Ambiguous { indices: Vec<usize>, message: String },
    /// No template matched.
    NoMatch { message: String },
}

/// What a worker does after one attempt to take a request.
pub enum WorkerAction {
    /// Send this response to the result queue.
    Emit(Response),
    /// Log this failure and drop the message.
    Drop(MatchFailure),
    /// Try to take a request again.
    Poll,
    /// Leave the loop: the stop signal came.
    Exit,
    /// The request queue closed before a stop signal came: abort.
    Fatal,
}

/// The index of the one matching template, as a `u16`, fits when the bank
/// holds at most this many templates.
pub open spec fn bank_fits(bank: Seq<Template>) -> bool {
    bank.len() <= 65536
}

/// One step of a worker over a bank: a message is matched and either answered
/// or dropped with its failure; the stop signal ends the loop; an empty queue
/// is polled again; a closed queue without a stop signal is fatal.
pub fn worker_step(bank: &Vec<Template>, event: RecvEvent<Request>) -> (r: WorkerAction)
    requires
        bank_fits(bank@),
    ensures
        match event {
            RecvEvent::Received(Request::Parse(msg)) => match match_model(bank_view(bank@), msg@) {
                MatchModel::Matched { idx, mask } => r is Emit && r->Emit_0.msg == msg
                    && r->Emit_0.msk@ == mask && r->Emit_0.idx == idx,
                MatchModel::Ambiguous { indices } => r is Drop && r->Drop_0 is Ambiguous
                    && r->Drop_0->Ambiguous_indices@ == indices && r->Drop_0->Ambiguous_message
                    == msg,
                MatchModel::NoMatch => r is Drop && r->Drop_0 is NoMatch
                    && r->Drop_0->NoMatch_message == msg,
            },
            RecvEvent::Received(Request::EndOfStream) => r is Exit,
            RecvEvent::Empty => r is Poll,
            RecvEvent::Closed => r is Fatal,
        },
{
    match event {
        RecvEvent::Received(Request::Parse(msg)) => {
            let outcome = match_message(bank, msg.as_str());
            match outcome {
                MatchOutcome::Matched { idx, mask } => {
                    proof {
                        lemma_matches_below(bank_view(bank@), msg@, bank@.len() as int);
                        let found = matches_below(bank_view(bank@), msg@, bank@.len() as int);
                        assert(found[0] < bank@.len());
                    }
                    WorkerAction::Emit(Response { msg, msk: mask, idx: idx as u16 })
                },
                MatchOutcome::Ambiguous { indices } => WorkerAction::Drop(
                    MatchFailure::Ambiguous { indices, message: msg },
                ),
                MatchOutcome::NoMatch => WorkerAction::Drop(MatchFailure::NoMatch { message: msg }),
            }
        },
        RecvEvent::Received(Request::EndOfStream) => WorkerAction::Exit,
        RecvEvent::Empty => WorkerAction::Poll,
        RecvEvent::Closed => WorkerAction::Fatal,
    }
}

/// What the result reader does after one attempt to take a response.
pub enum OutputAction {
    /// Hand this response to the consumer.
    Yield(Response),
    /// Try again: some worker may still send.
    Poll,
    /// Every worker is gone: the results are complete.
    Finish,
}

/// One step of the result reader: a response taken is handed on as it is, an
/// empty queue is polled again, and a closed queue ends the results.
pub fn output_step(event: RecvEvent<Response>) -> (r: OutputAction)
    ensures
        match event {
            RecvEvent::Received(resp) => r == OutputAction::Yield(resp),
            RecvEvent::Empty => r is Poll,
            RecvEvent::Closed => r is Finish,
        },
{
    match event {
        RecvEvent::Received(resp) => OutputAction::Yield(resp),
        RecvEvent::Empty => OutputAction::Poll,
        RecvEvent::Closed => OutputAction::Finish,
    }
}

/// The number of messages of `msgs` that match exactly one template.
pub open spec fn emitted_count(pats: Seq<Seq<char>>, msgs: Seq<Seq<char>>) -> nat
    decreases msgs.len(),
{
    if msgs.len() == 0 {
        0
    } else {
        emitted_count(pats, msgs.drop_last()) + if match_model(pats, msgs.last()) is Matched {
            1nat
        } else {
            0nat
        }
    }
}

/// The number of messages of `msgs` that are dropped as ambiguous or unmatched.
pub open spec fn dropped_count(pats: Seq<Seq<char>>, msgs: Seq<Seq<char>>) -> nat
    decreases msgs.len(),
{
    if msgs.len() == 0 {
        0
    } else {
        dropped_count(pats, msgs.drop_last()) + if match_model(pats, msgs.last()) is Matched {
            0nat
        } else {
            1nat
        }
    }
}

/// Every submitted message is either answered or dropped, never both and
/// never neither: the answers and the drops together number the messages.
pub proof fn lemma_every_message_accounted(pats: Seq<Seq<char>>, msgs: Seq<Seq<char>>)
    ensures
        emitted_count(pats, msgs) + dropped_count(pats, msgs) == msgs.len(),
    decreases msgs.len(),
{
    if msgs.len() > 0 {
        lemma_every_message_accounted(pats, msgs.drop_last());
    }
}

/// The phases of a worker pool, in the only order they can come.
#[derive(PartialEq, Eq, Structural, Clone, Copy, Debug)]
pub enum PoolPhase {
    Running,
    Draining,
    Joined,
}

/// The submission side of a worker pool: which phase it is in and how many
/// workers it drives. Its methods say which requests to enqueue, and refuse
/// a call out of order.
pub struct PoolController {
    workers: usize,
    phase: PoolPhase,
}

impl PoolController {
    pub closed spec fn spec_workers(&self) -> usize {
        self.workers
    }

    pub closed spec fn spec_phase(&self) -> PoolPhase {
        self.phase
    }

    /// A running pool of `workers` workers.
    pub fn new(workers: usize) -> (r: PoolController)
        ensures
            r.spec_workers() == workers,
            r.spec_phase() == PoolPhase::Running,
    {
        PoolController { workers, phase: PoolPhase::Running }
    }

    pub fn workers(&self) -> (r: usize)
        ensures
            r == self.spec_workers(),
    {
        self.workers
    }

    pub fn phase(&self) -> (r: PoolPhase)
        ensures
            r == self.spec_phase(),
    {
        self.phase
    }

    /// The one request that carries `msg`, while the pool runs; `None` once
    /// the end of the stream was signalled. The phase does not change.
    pub fn submit(&mut self, msg: String) -> (r: Option<Request>)
        ensures
            *final(self) == *old(self),
            r is Some <==> old(self).spec_phase() == PoolPhase::Running,
            r is Some ==> r->0 == Request::Parse(msg),
    {
        if self.phase == PoolPhase::Running {
            Some(Request::Parse(msg))
        } else {
            None
        }
    }

    /// One stop signal per worker, and the pool starts draining; `None`, with
    /// nothing changed, unless the pool was running.
    pub fn end_of_stream(&mut self) -> (r: Option<Vec<Request>>)
        ensures
            r is Some <==> old(self).spec_phase() == PoolPhase::Running,
            r is Some ==> final(self).spec_phase() == PoolPhase::Draining,
            r is None ==> *final(self) == *old(self),
            final(self).spec_workers() == old(self).spec_workers(),
            r is Some ==> r->0@.len() == old(self).spec_workers(),
            r is Some ==> forall|i: int|
                0 <= i < r->0@.len() ==> #[trigger] r->0@[i] == Request::EndOfStream,
    {
        if self.phase != PoolPhase::Running {
            return None;
        }
        let mut signals: Vec<Request> = Vec::new();
        let mut i: usize = 0;
        while i < self.workers
            invariant
                i <= self.workers,
                signals@.len() == i,
                forall|j: int| 0 <= j < i ==> #[trigger] signals@[j] == Request::EndOfStream,
            decreases self.workers - i,
        {
            signals.push(Request::EndOfStream);
            i = i + 1;
        }
        self.phase = PoolPhase::Draining;
        Some(signals)
    }

    /// Marks the pool joined, after the stop signals were sent; `false`, with
    /// nothing changed, in any other phase.
    pub fn join(&mut self) -> (r: bool)
        ensures
            r <==> old(self).spec_phase() == PoolPhase::Draining,
            r ==> final(self).spec_phase() == PoolPhase::Joined,
            !r ==> *final(self) == *old(self),
            final(self).spec_workers() == old(self).spec_workers(),
    {
        if self.phase != PoolPhase::Draining {
            return false;
        }
        self.phase = PoolPhase::Joined;
        true
    }
}

} // verus!
