//! NUL-delimited `git --name-status -z` output, parsed at once or as it
//! streams.

use vstd::prelude::*;
use vstd::slice::slice_subrange;
use vstd::utf8::{decode_utf8, is_char_boundary, pop_first_scalar, valid_utf8};

use crate::text::{chars_of, split_on, trim, trimmed, views};
use crate::text::{lemma_split_of_field, lemma_split_on_concat, lemma_split_on_nonempty};

verus! {

/// What `String::from_utf8_lossy` makes of bytes that are not UTF-8.
pub uninterp spec fn lossy_invalid(bytes: Seq<u8>) -> Seq<char>;

/// Bytes as text: UTF-8 decoded, anything else with replacement characters.
pub open spec fn lossy(bytes: Seq<u8>) -> Seq<char> {
    if valid_utf8(bytes) {
        decode_utf8(bytes)
    } else {
        lossy_invalid(bytes)
    }
}

/// Calls `String::from_utf8_lossy`: UTF-8 is decoded as it is. Where the bytes
/// are not UTF-8 the text, with its replacement characters, is only named.
#[verifier::external_body]
pub(crate) fn from_utf8_lossy(bytes: &[u8]) -> (r: String)
    ensures
        valid_utf8(bytes@) ==> r@ == decode_utf8(bytes@),
        !valid_utf8(bytes@) ==> r@ == lossy_invalid(bytes@),
{
    String::from_utf8_lossy(bytes).into_owned()
}

/// How far a parse has come: how many paths the current record still wants,
/// how many records have started, whether the record cap stopped the parse,
/// and the paths so far.
#[verifier::ext_equal]
pub struct ParseState {
    pub left: int,
    pub records: int,
    pub capped: bool,
    pub paths: Seq<Seq<char>>,
}

pub open spec fn start_state() -> ParseState {
    ParseState { left: 0, records: 0, capped: false, paths: Seq::empty() }
}

/// A rename or a copy is followed by two paths, anything else by one.
pub open spec fn paths_wanted(status: Seq<char>) -> int {
    if status.len() > 0 && (status[0] == 'R' || status[0] == 'C') {
        2
    } else {
        1
    }
}

/// One token: a status that starts a record, or a path of the current record.
/// Blank tokens start nothing, empty paths are dropped, and a record past the
/// cap stops the parse for good.
pub open spec fn step(st: ParseState, token: Seq<char>, cap: Option<usize>) -> ParseState {
    if st.capped {
        st
    } else if st.left == 0 {
        let status = trimmed(token);
        if status.len() == 0 {
            st
        } else if cap is Some && st.records >= cap->0 {
            ParseState { capped: true, ..st }
        } else {
            ParseState { records: st.records + 1, left: paths_wanted(status), ..st }
        }
    } else if token.len() == 0 {
        ParseState { left: st.left - 1, ..st }
    } else {
        ParseState { left: st.left - 1, paths: st.paths.push(token), ..st }
    }
}

/// The tokens one after another.
pub open spec fn run(st: ParseState, tokens: Seq<Seq<char>>, cap: Option<usize>) -> ParseState
    decreases tokens.len(),
{
    if tokens.len() == 0 {
        st
    } else {
        step(run(st, tokens.drop_last(), cap), tokens.last(), cap)
    }
}

/// The tokens between NUL bytes, as text. A NUL byte ends whatever stands
/// before it, a broken character too, so each token is decoded on its own.
pub open spec fn tokens_of(bytes: Seq<u8>) -> Seq<Seq<char>> {
    split_on(bytes, 0u8).map_values(|t: Seq<u8>| lossy(t))
}

/// The paths that a complete output names.
pub open spec fn paths_of_output(raw: Seq<u8>) -> Seq<Seq<char>> {
    run(start_state(), tokens_of(raw), None).paths
}

/// The tokens that a NUL byte ends, as text.
pub open spec fn ended_tokens(bytes: Seq<u8>) -> Seq<Seq<char>> {
    tokens_of(bytes).drop_last()
}

/// The length of the first token: the position of the first NUL byte, or the
/// whole length.
pub open spec fn token_end(bytes: Seq<u8>) -> int
    decreases bytes.len(),
{
    if bytes.len() == 0 || bytes[0] == 0 {
        0
    } else {
        1 + token_end(bytes.skip(1))
    }
}

/// The state after the ended tokens of `bytes`, up to the cap, and the bytes
/// that were not consumed.
pub open spec fn consumed(st: ParseState, bytes: Seq<u8>, cap: Option<usize>) -> (
    ParseState,
    Seq<u8>,
)
    decreases bytes.len(),
{
    let k = token_end(bytes);
    if st.capped || k < 0 || k >= bytes.len() {
        (st, bytes)
    } else {
        consumed(step(st, lossy(bytes.take(k)), cap), bytes.skip(k + 1), cap)
    }
}

proof fn lemma_token_end_at(bytes: Seq<u8>, k: int)
    requires
        0 <= k <= bytes.len(),
        forall|j: int| 0 <= j < k ==> bytes[j] != 0,
        k < bytes.len() ==> bytes[k] == 0,
    ensures
        token_end(bytes) == k,
    decreases k,
{
    if k > 0 {
        lemma_token_end_at(bytes.skip(1), k - 1);
    }
}

proof fn lemma_token_end(bytes: Seq<u8>)
    ensures
        0 <= token_end(bytes) <= bytes.len(),
        forall|j: int| 0 <= j < token_end(bytes) ==> bytes[j] != 0,
        token_end(bytes) < bytes.len() ==> bytes[token_end(bytes)] == 0,
    decreases bytes.len(),
{
    if bytes.len() > 0 && bytes[0] != 0 {
        let rest = bytes.skip(1);
        lemma_token_end(rest);
        assert forall|j: int| 0 <= j < token_end(bytes) implies bytes[j] != 0 by {
            if j > 0 {
                assert(rest[j - 1] == bytes[j]);
            }
        }
        if token_end(bytes) < bytes.len() {
            assert(rest[token_end(rest)] == bytes[token_end(bytes)]);
        }
    }
}

/// The tokens between NUL bytes.
fn split_tokens(raw: &[u8]) -> (r: Vec<String>)
    ensures
        views(r@) == tokens_of(raw@),
{
    let ghost f = |t: Seq<u8>| lossy(t);
    let mut out: Vec<String> = Vec::new();
    let mut from: usize = 0;
    let mut at: usize = 0;
    let ghost mut done: Seq<Seq<u8>> = Seq::empty();
    assert(raw@.subrange(0, 0) =~= Seq::<u8>::empty());
    assert(done.push(raw@.subrange(0, 0)) =~= split_on(raw@.take(0), 0u8));
    assert(views(out@) =~= done.map_values(f));
    while at < raw.len()
        invariant
            from <= at <= raw@.len(),
            f == (|t: Seq<u8>| lossy(t)),
            done.push(raw@.subrange(from as int, at as int)) == split_on(
                raw@.take(at as int),
                0u8,
            ),
            views(out@) == done.map_values(f),
        decreases raw@.len() - at,
    {
        let ghost next = raw@.take(at + 1);
        let ghost token = raw@.subrange(from as int, at as int);
        assert(next.drop_last() =~= raw@.take(at as int));
        assert(done.push(token).drop_last() =~= done);
        if raw[at] == 0 {
            let ghost before = views(out@);
            let text = from_utf8_lossy(slice_subrange(raw, from, at));
            out.push(text);
            from = at + 1;
            proof {
                assert(views(out@) =~= before.push(lossy(token)));
                assert(views(out@) =~= done.push(token).map_values(f));
                done = done.push(token);
                assert(raw@.subrange(from as int, at + 1) =~= Seq::<u8>::empty());
                assert(done.push(Seq::empty()) =~= split_on(next, 0u8));
            }
        } else {
            assert(raw@.subrange(from as int, at + 1) =~= token.push(raw@[at as int]));
            assert(done.push(token.push(raw@[at as int])) =~= split_on(next, 0u8));
        }
        at = at + 1;
    }
    let ghost before = views(out@);
    let ghost token = raw@.subrange(from as int, at as int);
    let text = from_utf8_lossy(slice_subrange(raw, from, at));
    out.push(text);
    proof {
        assert(raw@.take(at as int) =~= raw@);
        assert(views(out@) =~= before.push(lossy(token)));
        assert(views(out@) =~= done.push(token).map_values(f));
    }
    out
}

/// Parses NUL-delimited `git diff --name-status -z` output.
///
/// A record is `STATUS NUL path NUL`, or `Rnnn NUL old NUL new NUL` for
/// renames and `Cnnn ...` for copies. Every byte sequence is tolerated.
pub fn parse_name_status_z(raw: &[u8]) -> (r: Result<Vec<String>, crate::guard::GuardError>)
    ensures
        r matches Ok(paths) && views(paths@) == paths_of_output(raw@),
{
    let parts = split_tokens(raw);
    let mut paths: Vec<String> = Vec::new();
    let mut left: u8 = 0;
    let ghost tokens = views(parts@);
    let ghost mut st = start_state();
    let mut i: usize = 0;
    assert(views(paths@) =~= st.paths);
    while i < parts.len()
        invariant
            i <= parts@.len(),
            tokens == views(parts@),
            st == run(start_state(), tokens.take(i as int), None),
            left <= 2,
            left == st.left,
            !st.capped,
            views(paths@) == st.paths,
        decreases parts@.len() - i,
    {
        assert(tokens.take(i + 1).drop_last() =~= tokens.take(i as int));
        let token = parts[i].as_str();
        assert(tokens.take(i + 1).last() == token@);
        let ghost before = views(paths@);
        if left == 0 {
            let status = trim(token);
            let cs = chars_of(status.as_str());
            if cs.len() > 0 {
                left = if cs[0] == 'R' || cs[0] == 'C' {
                    2
                } else {
                    1
                };
            }
        } else {
            if !token.is_empty() {
                paths.push(token.to_owned());
                assert(views(paths@) =~= before.push(token@));
            }
            left = left - 1;
        }
        proof {
            st = step(st, token@, None);
        }
        i = i + 1;
    }
    assert(tokens.take(i as int) =~= tokens);
    Ok(paths)
}

/// Parses name-status output; the entry point for input generators.
pub fn fuzz_parse_name_status_z(raw: &[u8]) -> (r: Result<Vec<String>, crate::guard::GuardError>)
    ensures
        r matches Ok(paths) && views(paths@) == paths_of_output(raw@),
{
    parse_name_status_z(raw)
}

/// Incremental parser with the record grammar of [`parse_name_status_z`], fed
/// a chunk at a time, so that a record cap bounds memory however long the
/// stream is. Records are counted as they start.
#[derive(Debug)]
pub struct NameStatusStream {
    pub tail: Vec<u8>,
    pub paths_left: u8,
    pub records: usize,
    pub capped: bool,
    pub paths: Vec<String>,
}

impl Default for NameStatusStream {
    fn default() -> (r: Self)
        ensures
            r.state() == start_state(),
            r.tail@ == Seq::<u8>::empty(),
    {
        let r = NameStatusStream {
            tail: Vec::new(),
            paths_left: 0,
            records: 0,
            capped: false,
            paths: Vec::new(),
        };
        assert(r.state() =~= start_state());
        r
    }
}

impl NameStatusStream {
    pub open spec fn state(&self) -> ParseState {
        ParseState {
            left: self.paths_left as int,
            records: self.records as int,
            capped: self.capped,
            paths: views(self.paths@),
        }
    }

    /// Parses `chunk`; returns `false` once a record past `max_records` has
    /// been met. From then on nothing is read any more.
    ///
    /// The record counter must not overflow; a record takes at least one byte.
    pub fn feed(&mut self, chunk: &[u8], max_records: Option<usize>) -> (more: bool)
        requires
            old(self).records + old(self).tail@.len() + chunk@.len() <= usize::MAX,
        ensures
            old(self).capped ==> *final(self) == *old(self),
            !old(self).capped ==> (final(self).state(), final(self).tail@) == consumed(
                old(self).state(),
                old(self).tail@ + chunk@,
                max_records,
            ),
            more == !final(self).capped,
            old(self).state().paths.is_prefix_of(final(self).state().paths),
            forall|i: int|
                old(self).paths@.len() <= i < final(self).paths@.len() ==> (
                #[trigger] final(self).paths@[i])@.len() > 0,
            max_records is Some && old(self).records <= max_records->0 ==> final(self).records
                <= max_records->0,
            final(self).records + final(self).tail@.len() <= old(self).records + old(
                self,
            ).tail@.len() + chunk@.len(),
    {
        if self.capped {
            return false;
        }
        let ghost whole = self.tail@ + chunk@;
        let mut bytes: Vec<u8> = self.tail.clone();
        let mut c: usize = 0;
        assert(bytes@ =~= self.tail@);
        while c < chunk.len()
            invariant
                c <= chunk@.len(),
                bytes@ == self.tail@ + chunk@.take(c as int),
            decreases chunk@.len() - c,
        {
            bytes.push(chunk[c]);
            assert(bytes@ =~= self.tail@ + chunk@.take(c + 1));
            c = c + 1;
        }
        assert(bytes@ =~= whole);
        let mut from: usize = 0;
        let mut at: usize = 0;
        let ghost start = self.state();
        assert(whole.skip(0) =~= whole);
        while at < bytes.len() && !self.capped
            invariant
                from <= at <= bytes@.len(),
                bytes@ == whole,
                forall|j: int| from <= j < at ==> whole[j] != 0,
                self.tail == old(self).tail,
                consumed(start, whole, max_records) == consumed(
                    self.state(),
                    whole.skip(from as int),
                    max_records,
                ),
                self.records <= old(self).records + from,
                old(self).records + whole.len() <= usize::MAX,
            decreases bytes@.len() - at,
        {
            if bytes[at] == 0 {
                let ghost rest = whole.skip(from as int);
                proof {
                    assert forall|j: int| 0 <= j < at - from implies rest[j] != 0 by {
                        assert(rest[j] == whole[from + j]);
                    }
                    lemma_token_end_at(rest, at - from);
                    assert(rest.take(at - from) =~= whole.subrange(from as int, at as int));
                    assert(rest.skip(at - from + 1) =~= whole.skip(at + 1));
                }
                self.push_token(slice_subrange(bytes.as_slice(), from, at), max_records);
                from = at + 1;
            }
            at = at + 1;
        }
        proof {
            let rest = whole.skip(from as int);
            if !self.capped {
                lemma_token_end_at(rest, rest.len() as int);
            }
        }
        let mut tail: Vec<u8> = Vec::new();
        let mut k: usize = from;
        while k < bytes.len()
            invariant
                from <= k <= bytes@.len(),
                bytes@ == whole,
                tail@ == whole.subrange(from as int, k as int),
            decreases bytes@.len() - k,
        {
            tail.push(bytes[k]);
            assert(tail@ =~= whole.subrange(from as int, k + 1));
            k = k + 1;
        }
        assert(tail@ =~= whole.skip(from as int));
        self.tail = tail;
        proof {
            law_feeding_only_adds(start, whole, max_records);
            let added = self.state().paths;
            assert forall|i: int| old(self).paths@.len() <= i < self.paths@.len() implies (
            #[trigger] self.paths@[i])@.len() > 0 by {
                assert(added[i] == self.paths@[i]@);
            }
        }
        !self.capped
    }

    fn push_token(&mut self, bytes: &[u8], max_records: Option<usize>)
        requires
            !old(self).capped,
            old(self).records < usize::MAX,
        ensures
            final(self).state() == step(old(self).state(), lossy(bytes@), max_records),
            final(self).tail == old(self).tail,
            final(self).records <= old(self).records + 1,
    {
        let token = from_utf8_lossy(bytes);
        if self.paths_left == 0 {
            let status = trim(token.as_str());
            let cs = chars_of(status.as_str());
            if cs.len() == 0 {
                return;
            }
            if let Some(cap) = max_records {
                if self.records >= cap {
                    self.capped = true;
                    return;
                }
            }
            self.records = self.records + 1;
            self.paths_left = if cs[0] == 'R' || cs[0] == 'C' {
                2
            } else {
                1
            };
            return;
        }
        if !token.as_str().is_empty() {
            let ghost before = views(self.paths@);
            let ghost t = token@;
            self.paths.push(token);
            assert(views(self.paths@) =~= before.push(t));
        }
        self.paths_left = self.paths_left - 1;
    }
}

proof fn lemma_run_of_capped(st: ParseState, tokens: Seq<Seq<char>>, cap: Option<usize>)
    requires
        st.capped,
    ensures
        run(st, tokens, cap) == st,
    decreases tokens.len(),
{
    if tokens.len() > 0 {
        lemma_run_of_capped(st, tokens.drop_last(), cap);
    }
}

proof fn lemma_run_first(st: ParseState, first: Seq<char>, rest: Seq<Seq<char>>, cap: Option<usize>)
    ensures
        run(st, seq![first] + rest, cap) == run(step(st, first, cap), rest, cap),
    decreases rest.len(),
{
    let all = seq![first] + rest;
    if rest.len() == 0 {
        assert(all.drop_last() =~= rest);
        assert(all.last() == first);
        assert(run(st, all.drop_last(), cap) == st);
    } else {
        lemma_run_first(st, first, rest.drop_last(), cap);
        assert(all.drop_last() =~= seq![first] + rest.drop_last());
        assert(all.last() == rest.last());
    }
}

/// A record past the cap is never counted, whatever follows.
pub proof fn law_record_cap_holds(tokens: Seq<Seq<char>>, cap: usize)
    ensures
        run(start_state(), tokens, Some(cap)).records <= cap,
        run(start_state(), tokens, Some(cap)).records >= 0,
    decreases tokens.len(),
{
    if tokens.len() > 0 {
        law_record_cap_holds(tokens.drop_last(), cap);
    }
}

/// Up to the point where the cap stops it, a capped parse is the uncapped
/// one: the paths it found are a prefix of the paths of the whole.
pub proof fn law_capped_paths_are_a_prefix(tokens: Seq<Seq<char>>, cap: usize)
    ensures
        ({
            let capped = run(start_state(), tokens, Some(cap));
            let whole = run(start_state(), tokens, None);
            &&& capped.paths.is_prefix_of(whole.paths)
            &&& !capped.capped ==> capped == whole
            &&& !whole.capped
        }),
    decreases tokens.len(),
{
    if tokens.len() > 0 {
        law_capped_paths_are_a_prefix(tokens.drop_last(), cap);
        let before = run(start_state(), tokens.drop_last(), None);
        assert(before.paths.is_prefix_of(step(before, tokens.last(), None).paths));
    }
}

/// Feeding bytes from any state only adds to what was found: the paths so far
/// stay in front, no empty path is added, records do not grow past the cap,
/// and after the cap has stopped the parse nothing changes.
pub proof fn law_feeding_only_adds(st: ParseState, bytes: Seq<u8>, cap: Option<usize>)
    ensures
        st.capped ==> consumed(st, bytes, cap) == (st, bytes),
        st.paths.is_prefix_of(consumed(st, bytes, cap).0.paths),
        forall|i: int|
            st.paths.len() <= i < consumed(st, bytes, cap).0.paths.len() ==> (
            #[trigger] consumed(st, bytes, cap).0.paths[i]).len() > 0,
        cap is Some && st.records <= cap->0 ==> consumed(st, bytes, cap).0.records <= cap->0,
    decreases bytes.len(),
{
    let k = token_end(bytes);
    if !(st.capped || k < 0 || k >= bytes.len()) {
        let next = step(st, lossy(bytes.take(k)), cap);
        law_feeding_only_adds(next, bytes.skip(k + 1), cap);
        let all = consumed(st, bytes, cap).0.paths;
        assert forall|i: int| st.paths.len() <= i < all.len() implies (#[trigger] all[i]).len()
            > 0 by {
            if i < next.paths.len() {
                assert(all[i] == next.paths[i]);
            }
        }
    }
}

/// Consuming bytes runs the tokens that NUL bytes end, in order; unless the
/// cap stopped it, what is left over is the token that is not ended yet.
pub proof fn law_consumed_runs_the_tokens(st: ParseState, bytes: Seq<u8>, cap: Option<usize>)
    ensures
        consumed(st, bytes, cap).0 == run(st, ended_tokens(bytes), cap),
        !consumed(st, bytes, cap).0.capped ==> consumed(st, bytes, cap).1 == split_on(
            bytes,
            0u8,
        ).last(),
    decreases bytes.len(),
{
    let k = token_end(bytes);
    lemma_token_end(bytes);
    if st.capped {
        lemma_run_of_capped(st, ended_tokens(bytes), cap);
    } else if k >= bytes.len() {
        assert(!bytes.contains(0u8));
        lemma_split_of_field(bytes, 0u8);
        assert(ended_tokens(bytes) =~= Seq::<Seq<char>>::empty());
    } else {
        let head = bytes.take(k);
        let rest = bytes.skip(k + 1);
        assert(bytes =~= head.push(0u8) + rest);
        assert(!head.contains(0u8)) by {
            if head.contains(0u8) {
                let j = choose|j: int| 0 <= j < head.len() && head[j] == 0u8;
                assert(bytes[j] == 0);
            }
        }
        lemma_split_on_concat(head, rest, 0u8);
        lemma_split_of_field(head, 0u8);
        lemma_split_on_nonempty(rest, 0u8);
        let fields = split_on(bytes, 0u8);
        let tail_fields = split_on(rest, 0u8);
        assert(fields =~= seq![head] + tail_fields);
        assert(fields.drop_last() =~= seq![head] + tail_fields.drop_last());
        assert(ended_tokens(bytes) =~= seq![lossy(head)] + ended_tokens(rest));
        lemma_run_first(st, lossy(head), ended_tokens(rest), cap);
        law_consumed_runs_the_tokens(step(st, lossy(head), cap), rest, cap);
        assert(fields.last() == tail_fields.last());
    }
}

/// Where the chunks of a stream are cut makes no difference: feeding `a` and
/// then `b` leaves the state that feeding them as one chunk leaves. After the
/// cap has stopped the parse, later bytes stay unread.
pub proof fn law_chunk_boundaries_do_not_matter(
    st: ParseState,
    a: Seq<u8>,
    b: Seq<u8>,
    cap: Option<usize>,
)
    ensures
        ({
            let first = consumed(st, a, cap);
            if first.0.capped {
                consumed(st, a + b, cap) == (first.0, first.1 + b)
            } else {
                consumed(st, a + b, cap) == consumed(first.0, first.1 + b, cap)
            }
        }),
    decreases a.len(),
{
    let k = token_end(a);
    lemma_token_end(a);
    if !st.capped && k < a.len() {
        assert forall|j: int| 0 <= j < k implies (a + b)[j] != 0 by {
            assert((a + b)[j] == a[j]);
        }
        assert((a + b)[k] == a[k]);
        lemma_token_end_at(a + b, k);
        assert((a + b).take(k) =~= a.take(k));
        assert((a + b).skip(k + 1) =~= a.skip(k + 1) + b);
        law_chunk_boundaries_do_not_matter(
            step(st, lossy(a.take(k)), cap),
            a.skip(k + 1),
            b,
            cap,
        );
    }
}

proof fn lemma_decoded_without_nul(bytes: Seq<u8>)
    requires
        valid_utf8(bytes),
        !bytes.contains(0u8),
    ensures
        !decode_utf8(bytes).contains('\0'),
    decreases bytes.len(),
{
    if bytes.len() > 0 {
        let rest = pop_first_scalar(bytes);
        let text = decode_utf8(bytes);
        assert(bytes.contains(bytes[0]));
        if rest.contains(0u8) {
            let j = choose|j: int| 0 <= j < rest.len() && rest[j] == 0u8;
            let off = bytes.len() - rest.len();
            assert(bytes[j + off] == 0u8);
        }
        lemma_decoded_without_nul(rest);
        assert(text[0] != '\0') by {
            if text[0] == '\0' {
                vstd::utf8::decode_utf8_first_scalar(bytes);
                assert((0u32 & 0x7F) as u8 == 0u8) by (bit_vector);
                assert(vstd::utf8::take_first_scalar(bytes)[0] == 0u8);
                assert(vstd::utf8::take_first_scalar(bytes)[0] == bytes[0]);
            }
        }
        if text.contains('\0') {
            let j = choose|j: int| 0 <= j < text.len() && text[j] == '\0';
            assert(decode_utf8(rest)[j - 1] == '\0');
        }
    }
}

/// Of UTF-8 output it makes no difference whether it is split into tokens and
/// each is decoded, or decoded first and split at the NUL characters.
pub proof fn law_splitting_commutes_with_decoding(bytes: Seq<u8>)
    requires
        valid_utf8(bytes),
    ensures
        split_on(decode_utf8(bytes), '\0') == tokens_of(bytes),
    decreases bytes.len(),
{
    let f = |t: Seq<u8>| lossy(t);
    let k = token_end(bytes);
    lemma_token_end(bytes);
    if k >= bytes.len() {
        assert(!bytes.contains(0u8));
        lemma_split_of_field(bytes, 0u8);
        lemma_decoded_without_nul(bytes);
        lemma_split_of_field(decode_utf8(bytes), '\0');
        assert(split_on(bytes, 0u8).map_values(f) =~= seq![decode_utf8(bytes)]);
    } else {
        let head = bytes.take(k);
        let tail = bytes.skip(k);
        let rest = bytes.skip(k + 1);
        vstd::utf8::is_char_boundary_iff_not_is_continuation_byte(bytes, k);
        assert(is_char_boundary(bytes, k));
        vstd::utf8::valid_utf8_split(bytes, k);
        vstd::utf8::decode_utf8_split(bytes, k);
        assert(bytes.subrange(0, k) =~= head);
        assert(bytes.subrange(k, bytes.len() as int) =~= tail);
        assert(0u8 & 0x7F == 0) by (bit_vector);
        assert(tail[0] == 0u8);
        assert(pop_first_scalar(tail) =~= rest);
        assert(decode_utf8(tail) == seq!['\0'] + decode_utf8(rest));
        assert(decode_utf8(bytes) =~= decode_utf8(head).push('\0') + decode_utf8(rest));
        assert(!head.contains(0u8)) by {
            if head.contains(0u8) {
                let j = choose|j: int| 0 <= j < head.len() && head[j] == 0u8;
                assert(bytes[j] == 0);
            }
        }
        lemma_decoded_without_nul(head);
        lemma_split_of_field(decode_utf8(head), '\0');
        lemma_split_of_field(head, 0u8);
        lemma_split_on_concat(decode_utf8(head), decode_utf8(rest), '\0');
        assert(bytes =~= head.push(0u8) + rest);
        lemma_split_on_concat(head, rest, 0u8);
        law_splitting_commutes_with_decoding(rest);
        assert(split_on(bytes, 0u8).map_values(f) =~= seq![lossy(head)] + split_on(
            rest,
            0u8,
        ).map_values(f));
    }
}

/// Streaming and parsing at once agree: the parser of the whole finds what the
/// uncapped stream finds, and then takes the bytes behind the last NUL, which
/// the stream keeps pending, for one more token.
pub proof fn law_whole_is_the_stream_and_its_tail(raw: Seq<u8>)
    ensures
        ({
            let (st, tail) = consumed(start_state(), raw, None);
            paths_of_output(raw) == step(st, lossy(tail), None).paths
        }),
{
    law_consumed_runs_the_tokens(start_state(), raw, None);
    law_capped_paths_are_a_prefix(ended_tokens(raw), 0);
    lemma_split_on_nonempty(raw, 0u8);
    assert(tokens_of(raw).last() == lossy(split_on(raw, 0u8).last()));
}

/// On output that ends in a NUL byte, as git writes it, the uncapped stream
/// finds exactly the paths that the parser of the whole output finds, whatever
/// the bytes are.
pub proof fn law_stream_finds_the_paths_of_the_whole(raw: Seq<u8>)
    requires
        raw.len() == 0 || raw.last() == 0,
    ensures
        consumed(start_state(), raw, None).0.paths == paths_of_output(raw),
        !consumed(start_state(), raw, None).0.capped,
{
    law_whole_is_the_stream_and_its_tail(raw);
    law_consumed_runs_the_tokens(start_state(), raw, None);
    law_capped_paths_are_a_prefix(ended_tokens(raw), 0);
    let tail = consumed(start_state(), raw, None).1;
    assert(tail =~= Seq::<u8>::empty());
    assert(lossy(tail) =~= Seq::<char>::empty());
    assert(trimmed(lossy(tail)).len() == 0) by {
        assert(crate::text::trimmed_start(lossy(tail)) =~= lossy(tail));
    }
}

proof fn lemma_run_from(left: int, records: int, paths: Seq<Seq<char>>, tokens: Seq<Seq<char>>)
    requires
        left >= 0,
    ensures
        ({
            let from = ParseState { left, records, capped: false, paths };
            let fresh = ParseState { left, records: 0, capped: false, paths: Seq::empty() };
            let a = run(from, tokens, None);
            let b = run(fresh, tokens, None);
            a.left == b.left && a.records == records + b.records && !a.capped && !b.capped
                && a.paths == paths + b.paths
        }),
    decreases tokens.len(),
{
    let from = ParseState { left, records, capped: false, paths };
    let fresh = ParseState { left, records: 0, capped: false, paths: Seq::empty() };
    if tokens.len() == 0 {
        assert(paths + Seq::<Seq<char>>::empty() =~= paths);
    } else {
        lemma_run_from(left, records, paths, tokens.drop_last());
        let a = run(from, tokens, None);
        let b = run(fresh, tokens, None);
        assert(a.paths =~= paths + b.paths);
    }
}

proof fn lemma_tokens_first(token: Seq<u8>, rest: Seq<u8>)
    requires
        !token.contains(0u8),
    ensures
        tokens_of(token.push(0u8) + rest) == seq![lossy(token)] + tokens_of(rest),
{
    let f = |t: Seq<u8>| lossy(t);
    lemma_split_on_concat(token, rest, 0u8);
    lemma_split_of_field(token, 0u8);
    assert(tokens_of(token.push(0u8) + rest) =~= seq![lossy(token)] + tokens_of(rest));
}

/// The paths of a token: none where it is empty.
pub open spec fn named_path(token: Seq<char>) -> Seq<Seq<char>> {
    if token.len() == 0 {
        Seq::empty()
    } else {
        seq![token]
    }
}

/// Output is read record by record. A status is followed by one path, or by
/// two where it starts with `R` or `C`; each is taken as it stands, unless it
/// is empty. A blank token in place of a status is passed over.
pub proof fn law_output_is_read_record_by_record(
    status: Seq<u8>,
    first: Seq<u8>,
    second: Seq<u8>,
    rest: &[u8],
    one: &[u8],
    two: &[u8],
    blank: &[u8],
    of_rest: Vec<String>,
    of_one: Vec<String>,
    of_two: Vec<String>,
    of_blank: Vec<String>,
)
    requires
        !status.contains(0u8),
        !first.contains(0u8),
        !second.contains(0u8),
        one@ == status.push(0u8) + (first.push(0u8) + rest@),
        two@ == status.push(0u8) + (first.push(0u8) + (second.push(0u8) + rest@)),
        blank@ == status.push(0u8) + rest@,
        call_ensures(parse_name_status_z, (rest,), Ok(of_rest)),
        call_ensures(parse_name_status_z, (one,), Ok(of_one)),
        call_ensures(parse_name_status_z, (two,), Ok(of_two)),
        call_ensures(parse_name_status_z, (blank,), Ok(of_blank)),
    ensures
        ({
            let s = trimmed(lossy(status));
            &&& s.len() == 0 ==> views(of_blank@) == views(of_rest@)
            &&& s.len() > 0 && s[0] != 'R' && s[0] != 'C' ==> views(of_one@) == named_path(
                lossy(first),
            ) + views(of_rest@)
            &&& s.len() > 0 && (s[0] == 'R' || s[0] == 'C') ==> views(of_two@) == named_path(
                lossy(first),
            ) + named_path(lossy(second)) + views(of_rest@)
        }),
{
    let s = trimmed(lossy(status));
    let (a, b, c) = (lossy(status), lossy(first), lossy(second));
    let t = tokens_of(rest@);
    lemma_tokens_first(status, first.push(0u8) + rest@);
    lemma_tokens_first(first, rest@);
    lemma_tokens_first(status, first.push(0u8) + (second.push(0u8) + rest@));
    lemma_tokens_first(first, second.push(0u8) + rest@);
    lemma_tokens_first(second, rest@);
    lemma_tokens_first(status, rest@);
    let st0 = start_state();
    lemma_run_first(st0, a, t, None);
    lemma_run_first(st0, a, seq![b] + t, None);
    lemma_run_first(st0, a, seq![b] + (seq![c] + t), None);
    let st1 = step(st0, a, None);
    lemma_run_first(st1, b, t, None);
    lemma_run_first(st1, b, seq![c] + t, None);
    let st2 = step(st1, b, None);
    lemma_run_first(st2, c, t, None);
    let st3 = step(st2, c, None);
    assert(start_state() =~= ParseState {
        left: 0,
        records: 0,
        capped: false,
        paths: Seq::empty(),
    });
    let r = views(of_rest@);
    assert(r == run(start_state(), t, None).paths);
    if s.len() > 0 {
        if s[0] != 'R' && s[0] != 'C' {
            lemma_run_from(0, 1, named_path(b), t);
            assert(st2 =~= ParseState {
                left: 0,
                records: 1,
                capped: false,
                paths: named_path(b),
            });
        } else {
            lemma_run_from(0, 1, named_path(b) + named_path(c), t);
            assert(st3.paths =~= named_path(b) + named_path(c));
            assert(st3 =~= ParseState {
                left: 0,
                records: 1,
                capped: false,
                paths: named_path(b) + named_path(c),
            });
        }
    }
}

/// Without a NUL byte, or with nothing, there are no paths.
pub proof fn law_a_lone_token_names_no_path(raw: &[u8], r: Vec<String>)
    requires
        !raw@.contains(0u8),
        call_ensures(parse_name_status_z, (raw,), Ok(r)),
    ensures
        r@.len() == 0,
{
    lemma_split_of_field(raw@, 0u8);
    let t = tokens_of(raw@);
    assert(t =~= seq![lossy(raw@)]);
    assert(t.drop_last() =~= Seq::<Seq<char>>::empty());
    assert(run(start_state(), t.drop_last(), None) == start_state());
    assert(views(r@).len() == r@.len());
}

/// The cap stops the parse exactly at the first record past it: where the
/// whole holds no more records than the cap nothing is cut off.
pub proof fn law_the_cap_stops_at_the_first_record_past_it(tokens: Seq<Seq<char>>, cap: usize)
    ensures
        run(start_state(), tokens, Some(cap)).capped <==> run(start_state(), tokens, None).records
            > cap,
        run(start_state(), tokens, Some(cap)).capped ==> run(
            start_state(),
            tokens,
            Some(cap),
        ).records == cap,
        run(start_state(), tokens, None).records >= 0,
    decreases tokens.len(),
{
    if tokens.len() > 0 {
        law_the_cap_stops_at_the_first_record_past_it(tokens.drop_last(), cap);
        law_capped_paths_are_a_prefix(tokens.drop_last(), cap);
        law_record_cap_holds(tokens.drop_last(), cap);
    }
}

/// A stream that is fed all of git's output at once finds the paths that the
/// parser of the whole output finds, and wants more.
pub proof fn law_feeding_all_is_parsing_all(
    stream: &mut NameStatusStream,
    raw: &[u8],
    more: bool,
    parsed: Vec<String>,
)
    requires
        raw@.len() == 0 || raw@[raw@.len() - 1] == 0u8,
        old(stream).tail@.len() == 0,
        old(stream).paths@.len() == 0,
        old(stream).paths_left == 0,
        old(stream).records == 0,
        !old(stream).capped,
        call_ensures(NameStatusStream::feed, (stream, raw, None), more),
        call_ensures(parse_name_status_z, (raw,), Ok(parsed)),
    ensures
        views(final(stream).paths@) == views(parsed@),
        more,
        !final(stream).capped,
{
    assert(views(old(stream).paths@) =~= Seq::<Seq<char>>::empty());
    assert(old(stream).state() =~= start_state());
    assert(old(stream).tail@ + raw@ =~= raw@);
    law_stream_finds_the_paths_of_the_whole(raw@);
    assert(final(stream).state().paths == views(final(stream).paths@));
    assert(final(stream).state().capped == final(stream).capped);
}

/// It makes no difference whether output is fed in one chunk or in two, unless
/// the cap stops the first.
pub proof fn law_feeding_in_parts_is_feeding_at_once(
    one: &mut NameStatusStream,
    first: &mut NameStatusStream,
    second: &mut NameStatusStream,
    a: &[u8],
    b: &[u8],
    both: &[u8],
    cap: Option<usize>,
    r: bool,
    s: bool,
    t: bool,
)
    requires
        both@ == a@ + b@,
        !old(one).capped,
        *old(first) == *old(one),
        *old(second) == *final(first),
        !final(first).capped,
        call_ensures(NameStatusStream::feed, (one, both, cap), r),
        call_ensures(NameStatusStream::feed, (first, a, cap), s),
        call_ensures(NameStatusStream::feed, (second, b, cap), t),
    ensures
        views(final(one).paths@) == views(final(second).paths@),
        final(one).records == final(second).records,
        final(one).capped == final(second).capped,
        final(one).tail@ == final(second).tail@,
        r == t,
        r == !final(one).capped,
        s,
{
    law_chunk_boundaries_do_not_matter(old(one).state(), old(one).tail@ + a@, b@, cap);
    assert(old(one).tail@ + a@ + b@ =~= old(one).tail@ + both@);
    assert(final(first).state().capped == final(first).capped);
    let x = final(one).state();
    let y = final(second).state();
    assert(x == y);
    assert(x.paths == views(final(one).paths@) && y.paths == views(final(second).paths@));
    assert(x.records == final(one).records && y.records == final(second).records);
    assert(x.capped == final(one).capped && y.capped == final(second).capped);
}

/// A stream that the cap has stopped reads nothing more.
pub proof fn law_a_stopped_stream_reads_nothing(
    stream: &mut NameStatusStream,
    chunk: &[u8],
    cap: Option<usize>,
    more: bool,
)
    requires
        old(stream).capped,
        call_ensures(NameStatusStream::feed, (stream, chunk, cap), more),
    ensures
        *final(stream) == *old(stream),
        !more,
{
}

} // verus!
