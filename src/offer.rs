use vstd::prelude::*;
use vstd::string::*;

use crate::text::{
    chars_of, decimal_string, decimal_text, decimal_value, find_token, join_ranges,
    join_semi, parse_decimal, split_semi, split_trimmed, starts_with, str_eq, trim, trim_range,
    has_prefix, find, find_in, lemma_find_from, substring, ranges_within, no_semi, is_trimmed,
    is_digit, lemma_decimal_round_trip, lemma_split_plain, lemma_split_append_piece, lemma_trim_trimmed,
    lemma_trim_space_trimmed, lemma_split_concat, lemma_split_join, lemma_join_first, spaced,
};
use crate::types::{DM, HostInfo, IpAddress, TransferMode};

verus! {

/// How an offer message starts.
pub open spec fn offer_prefix() -> Seq<char> {
    "DIRECTH: HMCHNE; "@
}

/// The wire token of a transfer mode.
pub open spec fn mode_text(mode: TransferMode) -> Seq<char> {
    match mode {
        TransferMode::Legacy => "legacy"@,
        TransferMode::SemiReliable => "semi-reliable"@,
    }
}

/// The transfer mode a wire token asks for: semi-reliable for its own token,
/// legacy for any other.
pub open spec fn mode_of(tok: Seq<char>) -> TransferMode {
    if tok == "semi-reliable"@ {
        TransferMode::SemiReliable
    } else {
        TransferMode::Legacy
    }
}

/// The size a wire token gives: its decimal value, or 0 when it is not one.
pub open spec fn size_of(tok: Seq<char>) -> u64 {
    match decimal_value(tok) {
        Some(v) => v,
        None => 0,
    }
}

/// An offer message as it goes on the wire.
pub open spec fn offer_text(
    host: Seq<char>,
    path: Seq<char>,
    file_type: Seq<char>,
    size: u64,
    mode: TransferMode,
) -> Seq<char> {
    offer_prefix() + host + "; WFILE; "@ + path + "; WTYP; "@ + file_type + "; WSZ; "@
        + decimal_text(size as nat) + "; SNDM; "@ + mode_text(mode)
}

/// The tokens of an offer's body: what follows the prefix, trimmed, cut at
/// each `';'`, each piece trimmed.
pub open spec fn offer_tokens(m: Seq<char>) -> Seq<Seq<char>> {
    split_semi(trim(m.subrange(offer_prefix().len() as int, m.len() as int))).map_values(
        |t: Seq<char>| trim(t),
    )
}

/// The first position at or after `i` of a token equal to `lit`.
pub open spec fn token_index_from(toks: Seq<Seq<char>>, lit: Seq<char>, i: int) -> Option<int>
    decreases toks.len() - i,
{
    if i < 0 || i >= toks.len() {
        None
    } else if toks[i] == lit {
        Some(i)
    } else {
        token_index_from(toks, lit, i + 1)
    }
}

/// The first position of a token equal to `lit`.
pub open spec fn token_index(toks: Seq<Seq<char>>, lit: Seq<char>) -> Option<int> {
    token_index_from(toks, lit, 0)
}

/// Why a datagram was not taken as an offer.
#[derive(Debug, Clone, Copy, PartialEq, Eq, Structural)]
pub enum OfferError {
    /// It does not start with the offer prefix.
    NotAnOffer,
    /// One of the markers `WFILE`, `WTYP`, `WSZ`, `SNDM` is absent.
    MissingMarker,
    /// The markers are not in the order `WFILE`, `WTYP`, `WSZ`, `SNDM`.
    MarkersOutOfOrder,
    /// Nothing follows `SNDM`.
    MissingMode,
}

/// The fields an offer message carries: host name, path, type, size and
/// mode; or why it is no offer.
pub open spec fn offer_fields(m: Seq<char>) -> Result<
    (Seq<char>, Seq<char>, Seq<char>, u64, TransferMode),
    OfferError,
> {
    if !has_prefix(m, offer_prefix()) {
        Err(OfferError::NotAnOffer)
    } else {
        let toks = offer_tokens(m);
        let f = token_index(toks, "WFILE"@);
        let t = token_index(toks, "WTYP"@);
        let z = token_index(toks, "WSZ"@);
        let s = token_index(toks, "SNDM"@);
        if f is None || t is None || z is None || s is None {
            Err(OfferError::MissingMarker)
        } else if !(f->0 < t->0 && t->0 < z->0 && z->0 < s->0) {
            Err(OfferError::MarkersOutOfOrder)
        } else if s->0 + 1 >= toks.len() {
            Err(OfferError::MissingMode)
        } else {
            Ok(
                (
                    join_semi(toks.subrange(0, f->0)),
                    join_semi(toks.subrange(f->0 + 1, t->0)),
                    toks[t->0 + 1],
                    size_of(toks[z->0 + 1]),
                    mode_of(toks[s->0 + 1]),
                ),
            )
        }
    }
}

/// The wire token of a transfer mode.
pub fn mode_token(mode: TransferMode) -> (r: &'static str)
    ensures
        r@ == mode_text(mode),
{
    match mode {
        TransferMode::Legacy => "legacy",
        TransferMode::SemiReliable => "semi-reliable",
    }
}

/// The transfer mode a wire token asks for.
pub fn parse_mode(tok: &str) -> (r: TransferMode)
    ensures
        r == mode_of(tok@),
{
    if str_eq(tok, "semi-reliable") {
        TransferMode::SemiReliable
    } else {
        TransferMode::Legacy
    }
}

/// The offer message a sender sends to the chosen host.
pub fn encode_offer(host: &str, path: &str, file_type: &str, size: u64, mode: TransferMode) -> (r:
    String)
    ensures
        r@ == offer_text(host@, path@, file_type@, size, mode),
{
    let size_text = decimal_string(size);
    let r = String::from_str("DIRECTH: HMCHNE; ").concat(host).concat("; WFILE; ").concat(
        path,
    ).concat("; WTYP; ").concat(file_type).concat("; WSZ; ").concat(size_text.as_str()).concat(
        "; SNDM; ",
    ).concat(mode_token(mode));
    r
}

/// Reads an offer datagram that came from `source`.
pub fn parse_offer(message: &str, source: IpAddress) -> (r: Result<DM, OfferError>)
    ensures
        match (r, offer_fields(message@)) {
            (Ok(dm), Ok(f)) => {
                &&& dm.host_info.name@ == f.0
                &&& dm.host_info.ip == source
                &&& dm.file_path@ == f.1
                &&& dm.file_type@ == f.2
                &&& dm.file_size == f.3
                &&& dm.send_method == f.4
            },
            (Err(e), Err(g)) => e == g,
            _ => false,
        },
{
    let m = chars_of(message);
    let prefix = chars_of("DIRECTH: HMCHNE; ");
    if !starts_with(&m, &prefix) {
        return Err(OfferError::NotAnOffer);
    }
    let (a, b) = trim_range(&m, prefix.len(), m.len());
    let ranges = split_trimmed(&m, a, b);
    let ghost toks = offer_tokens(message@);
    assert(toks.len() == ranges@.len());
    assert forall|k: int| 0 <= k < ranges@.len() implies m@.subrange(
        #[trigger] ranges@[k].0 as int,
        ranges@[k].1 as int,
    ) == toks[k] by {}
    assert(ranges_within(m@, ranges@));
    let lit_wfile = chars_of("WFILE");
    let lit_wtyp = chars_of("WTYP");
    let lit_wsz = chars_of("WSZ");
    let lit_sndm = chars_of("SNDM");
    let wfile = find_token(&m, &ranges, &lit_wfile);
    let wtyp = find_token(&m, &ranges, &lit_wtyp);
    let wsz = find_token(&m, &ranges, &lit_wsz);
    let sndm = find_token(&m, &ranges, &lit_sndm);
    proof {
        lemma_token_index_first(toks, "WFILE"@, wfile);
        lemma_token_index_first(toks, "WTYP"@, wtyp);
        lemma_token_index_first(toks, "WSZ"@, wsz);
        lemma_token_index_first(toks, "SNDM"@, sndm);
    }
    match (wfile, wtyp, wsz, sndm) {
        (Some(f), Some(t), Some(z), Some(s)) => {
            if !(f < t && t < z && z < s) {
                return Err(OfferError::MarkersOutOfOrder);
            }
            if s + 1 >= ranges.len() {
                return Err(OfferError::MissingMode);
            }
            let name = join_ranges(message, &m, &ranges, 0, f);
            let file_path = join_ranges(message, &m, &ranges, f + 1, t);
            assert(Seq::new(
                f as nat,
                |k: int| m@.subrange(ranges@[0 + k].0 as int, ranges@[0 + k].1 as int),
            ) =~~= toks.subrange(0, f as int));
            assert(Seq::new(
                (t - (f + 1)) as nat,
                |k: int| m@.subrange(ranges@[f + 1 + k].0 as int, ranges@[f + 1 + k].1 as int),
            ) =~~= toks.subrange(f + 1, t as int));
            let (ts, te) = ranges[t + 1];
            let file_type = substring(message, ts, te);
            let (zs, ze) = ranges[z + 1];
            let size = parse_decimal(&m, zs, ze);
            let file_size = match size {
                Some(v) => v,
                None => 0,
            };
            let (ms, me) = ranges[s + 1];
            let mode_tok = substring(message, ms, me);
            let send_method = parse_mode(mode_tok.as_str());
            Ok(
                DM {
                    host_info: HostInfo { name, ip: source },
                    send_method,
                    file_path,
                    file_type,
                    file_size,
                },
            )
        },
        _ => Err(OfferError::MissingMarker),
    }
}

/// What `find_token` reports is the spec's first token equal to `lit`.
proof fn lemma_token_index_first(toks: Seq<Seq<char>>, lit: Seq<char>, r: Option<usize>)
    requires
        match r {
            Some(i) => i < toks.len() && toks[i as int] == lit && forall|k: int|
                0 <= k < i ==> #[trigger] toks[k] != lit,
            None => forall|k: int| 0 <= k < toks.len() ==> #[trigger] toks[k] != lit,
        },
    ensures
        match r {
            Some(i) => token_index(toks, lit) == Some(i as int),
            None => token_index(toks, lit) is None,
        },
{
    lemma_token_index_from(toks, lit, 0);
}

proof fn lemma_token_index_from(toks: Seq<Seq<char>>, lit: Seq<char>, i: int)
    requires
        0 <= i,
    ensures
        token_index_from(toks, lit, i) matches Some(j) ==> i <= j < toks.len() && toks[j] == lit
            && forall|k: int| i <= k < j ==> #[trigger] toks[k] != lit,
        token_index_from(toks, lit, i) is None ==> forall|k: int|
            i <= k < toks.len() ==> #[trigger] toks[k] != lit,
    decreases toks.len() - i,
{
    if i < toks.len() && toks[i] != lit {
        lemma_token_index_from(toks, lit, i + 1);
    }
}

} // verus!

verus! {

/// How an accept message starts.
pub open spec fn accept_prefix() -> Seq<char> {
    "ACCEPT: "@
}

/// The marker before the accepting host's name.
pub open spec fn from_tag() -> Seq<char> {
    "FROM: "@
}

/// An accept message as it goes on the wire.
pub open spec fn accept_text(path: Seq<char>, host: Seq<char>) -> Seq<char> {
    accept_prefix() + path + "; FROM: "@ + host
}

/// `s` up to (not including) the first occurrence of `pat`, or all of it.
pub open spec fn before_first(s: Seq<char>, pat: Seq<char>) -> Seq<char> {
    match find(s, pat) {
        Some(i) => s.subrange(0, i),
        None => s,
    }
}

/// The path and host an accept message names: the path is the text after
/// the prefix up to the first `';'`, the host the text after the first
/// `"FROM: "` up to the next one (empty when there is none), both trimmed.
pub open spec fn accept_fields(m: Seq<char>) -> Option<(Seq<char>, Seq<char>)> {
    if !has_prefix(m, accept_prefix()) {
        None
    } else {
        let rest = m.subrange(accept_prefix().len() as int, m.len() as int);
        let path = trim(before_first(rest, seq![';']));
        let host = match find(m, from_tag()) {
            Some(i) => trim(before_first(m.subrange(i + from_tag().len(), m.len() as int), from_tag())),
            None => Seq::empty(),
        };
        Some((path, host))
    }
}

/// The message that tells a receiver the file is on its way.
pub open spec fn ready_text() -> Seq<char> {
    "FSNT;"@
}

/// `c` with an ASCII capital turned into its small letter.
pub open spec fn ascii_lower(c: char) -> char {
    if 65 <= c as u32 <= 90 {
        ((c as u32) + 32) as char
    } else {
        c
    }
}

/// Whether two texts are equal up to ASCII case.
pub open spec fn eq_ignore_ascii_case(a: Seq<char>, b: Seq<char>) -> bool {
    a.len() == b.len() && forall|i: int| 0 <= i < a.len() ==> ascii_lower(a[i]) == ascii_lower(b[i])
}

/// The accept message a receiver sends for the offer of `path`.
pub fn encode_accept(path: &str, host: &str) -> (r: String)
    ensures
        r@ == accept_text(path@, host@),
{
    String::from_str("ACCEPT: ").concat(path).concat("; FROM: ").concat(host)
}

/// The ready message.
pub fn ready_message() -> (r: &'static str)
    ensures
        r@ == ready_text(),
{
    "FSNT;"
}

/// Whether a datagram, trimmed, is the ready message.
pub fn is_ready(message: &str) -> (r: bool)
    ensures
        r == (trim(message@) == ready_text()),
{
    let m = chars_of(message);
    let (a, b) = trim_range(&m, 0, m.len());
    assert(m@.subrange(0, m@.len() as int) =~= message@);
    let t = substring(message, a, b);
    str_eq(t.as_str(), "FSNT;")
}

/// The text before the first occurrence of `pat`, trimmed.
fn trimmed_before(s: &str, pat: &Vec<char>) -> (r: String)
    ensures
        r@ == trim(before_first(s@, pat@)),
{
    let m = chars_of(s);
    let end = match find_in(&m, pat) {
        Some(i) => i,
        None => m.len(),
    };
    proof {
        lemma_find_from(m@, pat@, 0);
    }
    let (a, b) = trim_range(&m, 0, end);
    assert(m@.subrange(0, m@.len() as int) =~= s@);
    substring(s, a, b)
}

/// Reads an accept message: the path it accepts and the host that sent it.
pub fn parse_accept(message: &str) -> (r: Option<(String, String)>)
    ensures
        match (r, accept_fields(message@)) {
            (Some(x), Some(f)) => x.0@ == f.0 && x.1@ == f.1,
            (None, None) => true,
            _ => false,
        },
{
    let m = chars_of(message);
    let prefix = chars_of("ACCEPT: ");
    if !starts_with(&m, &prefix) {
        return None;
    }
    let rest = substring(message, prefix.len(), m.len());
    let semi = vec![';'];
    assert(semi@ =~= seq![';']);
    let path = trimmed_before(rest.as_str(), &semi);
    let tag = chars_of("FROM: ");
    let host = match find_in(&m, &tag) {
        Some(i) => {
            proof {
                lemma_find_from(m@, tag@, 0);
            }
            let after = substring(message, i + tag.len(), m.len());
            trimmed_before(after.as_str(), &tag)
        },
        None => String::new(),
    };
    Some((path, host))
}

/// The host named by an accept message for `path`: `Some` exactly when the
/// message is an accept whose path is `path`.
pub fn accepted_by(message: &str, path: &str) -> (r: Option<String>)
    ensures
        match accept_fields(message@) {
            Some(f) => if f.0 == path@ {
                r matches Some(h) && h@ == f.1
            } else {
                r is None
            },
            None => r is None,
        },
{
    match parse_accept(message) {
        Some((p, h)) => {
            if str_eq(p.as_str(), path) {
                Some(h)
            } else {
                None
            }
        },
        None => None,
    }
}

/// The small-letter form of an ASCII capital; other characters as they are.
fn to_ascii_lower(c: char) -> (r: char)
    ensures
        r == ascii_lower(c),
{
    let x = c as u32;
    if 65 <= x && x <= 90 {
        ((x + 32) as u8) as char
    } else {
        c
    }
}

/// Whether two strings are equal up to ASCII case.
pub fn equals_ignore_ascii_case(a: &str, b: &str) -> (r: bool)
    ensures
        r == eq_ignore_ascii_case(a@, b@),
{
    let x = chars_of(a);
    let y = chars_of(b);
    if x.len() != y.len() {
        return false;
    }
    let mut i: usize = 0;
    while i < x.len()
        invariant
            x@ == a@,
            y@ == b@,
            x@.len() == y@.len(),
            i <= x@.len(),
            forall|k: int| 0 <= k < i ==> ascii_lower(a@[k]) == ascii_lower(b@[k]),
        decreases x@.len() - i,
    {
        if to_ascii_lower(x[i]) != to_ascii_lower(y[i]) {
            return false;
        }
        i = i + 1;
    }
    true
}

/// Whether the sender's answer to "Send file?" is yes: `y` in either case,
/// around whitespace.
pub fn confirms_send(response: &str) -> (r: bool)
    ensures
        r == eq_ignore_ascii_case(trim(response@), "y"@),
{
    let m = chars_of(response);
    let (a, b) = trim_range(&m, 0, m.len());
    assert(m@.subrange(0, m@.len() as int) =~= response@);
    let t = substring(response, a, b);
    equals_ignore_ascii_case(t.as_str(), "y")
}

/// What the receiving user asked for when picking an offer.
#[derive(Debug, Clone, Copy, PartialEq, Eq, Structural)]
pub enum Selection {
    /// Pick nothing.
    Cancel,
    /// The offer at this position (0-based).
    Offer(usize),
    /// Not a number between 1 and the number of offers.
    Invalid,
}

/// The choice a line of input makes among `count` offers numbered from 1:
/// `cancel` in any ASCII case cancels, a number from 1 to `count` picks that
/// offer, anything else is invalid.
pub open spec fn selection_of(input: Seq<char>, count: nat) -> Selection {
    let t = trim(input);
    if eq_ignore_ascii_case(t, "cancel"@) {
        Selection::Cancel
    } else {
        match decimal_value(t) {
            Some(n) => if 0 < n <= count {
                Selection::Offer((n - 1) as usize)
            } else {
                Selection::Invalid
            },
            None => Selection::Invalid,
        }
    }
}

/// Reads the receiving user's choice among `count` offers.
pub fn select_offer(input: &str, count: usize) -> (r: Selection)
    ensures
        r == selection_of(input@, count as nat),
{
    let m = chars_of(input);
    let (a, b) = trim_range(&m, 0, m.len());
    assert(m@.subrange(0, m@.len() as int) =~= input@);
    let t = substring(input, a, b);
    if equals_ignore_ascii_case(t.as_str(), "cancel") {
        return Selection::Cancel;
    }
    match parse_decimal(&m, a, b) {
        Some(n) => {
            if 0 < n && n <= count as u64 {
                Selection::Offer((n - 1) as usize)
            } else {
                Selection::Invalid
            }
        },
        None => Selection::Invalid,
    }
}

/// The offers received so far, in order of arrival; offers are only ever
/// appended.
pub struct OfferRegistry {
    offers: Vec<DM>,
}

impl View for OfferRegistry {
    type V = Seq<DM>;

    closed spec fn view(&self) -> Seq<DM> {
        self.offers@
    }
}

impl OfferRegistry {
    /// An empty registry.
    pub fn new() -> (r: OfferRegistry)
        ensures
            r@ == Seq::<DM>::empty(),
    {
        OfferRegistry { offers: Vec::new() }
    }

    /// The number of offers.
    pub fn len(&self) -> (r: usize)
        ensures
            r == self@.len(),
    {
        self.offers.len()
    }

    /// Appends an offer.
    pub fn push(&mut self, offer: DM)
        ensures
            final(self)@ == old(self)@.push(offer),
    {
        self.offers.push(offer);
    }

    /// Takes one datagram from `source`: appends the offer it carries, if it
    /// is one. Returns what kept it out otherwise.
    pub fn handle_message(&mut self, message: &str, source: IpAddress) -> (r: Result<
        (),
        OfferError,
    >)
        ensures
            match offer_fields(message@) {
                Ok(f) => r is Ok && final(self)@.len() == old(self)@.len() + 1
                    && final(self)@.subrange(0, old(self)@.len() as int) == old(self)@ && {
                    let dm = final(self)@.last();
                    &&& dm.host_info.name@ == f.0
                    &&& dm.host_info.ip == source
                    &&& dm.file_path@ == f.1
                    &&& dm.file_type@ == f.2
                    &&& dm.file_size == f.3
                    &&& dm.send_method == f.4
                },
                Err(e) => r == Err::<(), OfferError>(e) && final(self)@ == old(self)@,
            },
    {
        match parse_offer(message, source) {
            Ok(dm) => {
                let ghost before = self@;
                self.offers.push(dm);
                assert(self@.subrange(0, before.len() as int) =~= before);
                Ok(())
            },
            Err(e) => Err(e),
        }
    }

    /// The offer at position `index` (0-based).
    pub fn get(&self, index: usize) -> (r: &DM)
        requires
            index < self@.len(),
        ensures
            *r == self@[index as int],
    {
        &self.offers[index]
    }
}

} // verus!

verus! {

/// A field an offer carries through unchanged: no `';'`, no leading or
/// trailing whitespace, and none of the marker tokens.
pub open spec fn is_plain_field(f: Seq<char>) -> bool {
    &&& no_semi(f)
    &&& is_trimmed(f)
    &&& f != "WFILE"@
    &&& f != "WTYP"@
    &&& f != "WSZ"@
    &&& f != "SNDM"@
}

proof fn lemma_token_at(toks: Seq<Seq<char>>, lit: Seq<char>, j: int)
    requires
        0 <= j < toks.len(),
        toks[j] == lit,
        forall|k: int| 0 <= k < j ==> toks[k] != lit,
    ensures
        token_index(toks, lit) == Some(j),
{
    lemma_token_index_from(toks, lit, 0);
}

/// Pieces a host name or path is made of: at least one, each a plain field.
pub open spec fn plain_pieces(ps: Seq<Seq<char>>) -> bool {
    ps.len() >= 1 && forall|i: int| 0 <= i < ps.len() ==> is_plain_field(#[trigger] ps[i])
}

/// The body of an offer message: what follows its prefix.
pub open spec fn offer_body(
    host: Seq<char>,
    path: Seq<char>,
    file_type: Seq<char>,
    size: u64,
    mode: TransferMode,
) -> Seq<char> {
    host + seq![';'] + (seq![' '] + "WFILE"@) + seq![';'] + (seq![' '] + path) + seq![';'] + (seq![
        ' ',
    ] + "WTYP"@) + seq![';'] + (seq![' '] + file_type) + seq![';'] + (seq![' '] + "WSZ"@) + seq![
        ';',
    ] + (seq![' '] + decimal_text(size as nat)) + seq![';'] + (seq![' '] + "SNDM"@) + seq![';']
        + (seq![' '] + mode_text(mode))
}

/// The tokens an offer built from these pieces should read back as.
pub open spec fn offer_want(
    hp: Seq<Seq<char>>,
    pp: Seq<Seq<char>>,
    file_type: Seq<char>,
    size: u64,
    mode: TransferMode,
) -> Seq<Seq<char>> {
    hp + seq!["WFILE"@] + pp + seq![
        "WTYP"@,
        file_type,
        "WSZ"@,
        decimal_text(size as nat),
        "SNDM"@,
        mode_text(mode),
    ]
}

proof fn lemma_offer_body(
    hp: Seq<Seq<char>>,
    pp: Seq<Seq<char>>,
    file_type: Seq<char>,
    size: u64,
    mode: TransferMode,
)
    requires
        plain_pieces(hp),
    ensures
        ({
            let m = offer_text(join_semi(hp), join_semi(pp), file_type, size, mode);
            let body = offer_body(join_semi(hp), join_semi(pp), file_type, size, mode);
            &&& has_prefix(m, offer_prefix())
            &&& m.subrange(offer_prefix().len() as int, m.len() as int) == body
            &&& trim(body) == body
        }),
{
    reveal_strlit("DIRECTH: HMCHNE; ");
    reveal_strlit("; WFILE; ");
    reveal_strlit("; WTYP; ");
    reveal_strlit("; WSZ; ");
    reveal_strlit("; SNDM; ");
    reveal_strlit("WFILE");
    reveal_strlit("WTYP");
    reveal_strlit("WSZ");
    reveal_strlit("SNDM");
    reveal_strlit("legacy");
    reveal_strlit("semi-reliable");
    let host = join_semi(hp);
    let md = mode_text(mode);
    let m = offer_text(host, join_semi(pp), file_type, size, mode);
    let body = offer_body(host, join_semi(pp), file_type, size, mode);
    assert(m =~= offer_prefix() + body);
    assert(m.subrange(0, offer_prefix().len() as int) =~= offer_prefix());
    assert(m.subrange(offer_prefix().len() as int, m.len() as int) =~= body);
    assert(body.last() == md.last());
    lemma_join_first(hp);
    assert(is_plain_field(hp[0]));
    if host.len() > 0 {
        assert(body[0] == host[0]);
    } else {
        assert(body[0] == ';');
    }
    assert(is_trimmed(body));
    lemma_trim_trimmed(body);
}

#[verifier::rlimit(50)]
proof fn lemma_offer_body_split(
    hp: Seq<Seq<char>>,
    pp: Seq<Seq<char>>,
    file_type: Seq<char>,
    size: u64,
    mode: TransferMode,
)
    requires
        plain_pieces(hp),
        plain_pieces(pp),
        is_plain_field(file_type),
    ensures
        split_semi(offer_body(join_semi(hp), join_semi(pp), file_type, size, mode)) == (seq![hp[0]]
            + spaced(hp.drop_first())) + seq![seq![' '] + "WFILE"@] + spaced(pp) + seq![
            seq![' '] + "WTYP"@,
            seq![' '] + file_type,
            seq![' '] + "WSZ"@,
            seq![' '] + decimal_text(size as nat),
            seq![' '] + "SNDM"@,
            seq![' '] + mode_text(mode),
        ],
{
    reveal_strlit("WFILE");
    reveal_strlit("WTYP");
    reveal_strlit("WSZ");
    reveal_strlit("SNDM");
    reveal_strlit("legacy");
    reveal_strlit("semi-reliable");
    let host = join_semi(hp);
    let path = join_semi(pp);
    let z = decimal_text(size as nat);
    lemma_decimal_round_trip(size as nat);
    let sp = seq![' '];
    let semi = seq![';'];
    let t_wfile = sp + "WFILE"@;
    let t_path = sp + path;
    let t_wtyp = sp + "WTYP"@;
    let t_type = sp + file_type;
    let t_wsz = sp + "WSZ"@;
    let t_size = sp + z;
    let t_sndm = sp + "SNDM"@;
    let t_mode = sp + mode_text(mode);
    assert forall|i: int| 0 <= i < hp.len() implies no_semi(#[trigger] hp[i]) by {
        assert(is_plain_field(hp[i]));
    }
    assert forall|i: int| 0 <= i < pp.len() implies no_semi(#[trigger] pp[i]) by {
        assert(is_plain_field(pp[i]));
    }
    lemma_split_join(Seq::empty(), hp);
    assert(Seq::<char>::empty() + host =~= host);
    assert(Seq::<char>::empty() + hp[0] =~= hp[0]);
    lemma_split_join(sp, pp);
    assert(seq![sp + pp[0]] + spaced(pp.drop_first()) =~~= spaced(pp));
    assert(no_semi(t_wfile));
    assert(no_semi(t_wtyp));
    assert(no_semi(t_type));
    assert(no_semi(t_wsz));
    assert forall|i: int| 0 <= i < t_size.len() implies t_size[i] != ';' by {
        if i > 0 {
            assert(t_size[i] == z[i - 1]);
            assert(is_digit(z[i - 1]));
        }
    }
    assert(no_semi(t_sndm));
    assert(no_semi(t_mode));
    lemma_split_plain(t_wfile);
    lemma_split_plain(t_wtyp);
    lemma_split_plain(t_type);
    lemma_split_plain(t_wsz);
    lemma_split_plain(t_size);
    lemma_split_plain(t_sndm);
    lemma_split_plain(t_mode);
    let x1 = host + semi + t_wfile;
    lemma_split_concat(host, t_wfile);
    let x2 = x1 + semi + t_path;
    lemma_split_concat(x1, t_path);
    let x3 = x2 + semi + t_wtyp;
    lemma_split_concat(x2, t_wtyp);
    let x4 = x3 + semi + t_type;
    lemma_split_concat(x3, t_type);
    let x5 = x4 + semi + t_wsz;
    lemma_split_concat(x4, t_wsz);
    let x6 = x5 + semi + t_size;
    lemma_split_concat(x5, t_size);
    let x7 = x6 + semi + t_sndm;
    lemma_split_concat(x6, t_sndm);
    lemma_split_concat(x7, t_mode);
    assert(offer_body(host, path, file_type, size, mode) == x7 + semi + t_mode);
    assert(split_semi(x7 + semi + t_mode) =~~= (seq![hp[0]] + spaced(hp.drop_first())) + seq![
        t_wfile,
    ] + spaced(pp) + seq![t_wtyp, t_type, t_wsz, t_size, t_sndm, t_mode]);
}

#[verifier::rlimit(50)]
proof fn lemma_offer_tokens(
    hp: Seq<Seq<char>>,
    pp: Seq<Seq<char>>,
    file_type: Seq<char>,
    size: u64,
    mode: TransferMode,
)
    requires
        plain_pieces(hp),
        plain_pieces(pp),
        is_plain_field(file_type),
    ensures
        offer_tokens(offer_text(join_semi(hp), join_semi(pp), file_type, size, mode)) == offer_want(
            hp,
            pp,
            file_type,
            size,
            mode,
        ),
{
    reveal_strlit("WFILE");
    reveal_strlit("WTYP");
    reveal_strlit("WSZ");
    reveal_strlit("SNDM");
    reveal_strlit("legacy");
    reveal_strlit("semi-reliable");
    lemma_offer_body(hp, pp, file_type, size, mode);
    lemma_offer_body_split(hp, pp, file_type, size, mode);
    let nh = hp.len() as int;
    let np = pp.len() as int;
    let z = decimal_text(size as nat);
    lemma_decimal_round_trip(size as nat);
    let md = mode_text(mode);
    let sp = seq![' '];
    let raw = split_semi(offer_body(join_semi(hp), join_semi(pp), file_type, size, mode));
    let want = offer_want(hp, pp, file_type, size, mode);
    assert(is_digit(z[0]));
    assert(is_digit(z.last()));
    assert(raw.len() == want.len());
    assert forall|i: int| 0 <= i < raw.len() implies trim(#[trigger] raw[i]) == want[i] by {
        if i < nh {
            assert(is_plain_field(hp[i]));
            if i == 0 {
                lemma_trim_trimmed(hp[0]);
            } else {
                assert(raw[i] == sp + hp[i]);
                lemma_trim_space_trimmed(hp[i]);
            }
        } else if i == nh {
            lemma_trim_space_trimmed("WFILE"@);
        } else if i < nh + 1 + np {
            let j = i - nh - 1;
            assert(is_plain_field(pp[j]));
            assert(raw[i] == sp + pp[j]);
            lemma_trim_space_trimmed(pp[j]);
        } else if i == nh + 1 + np {
            lemma_trim_space_trimmed("WTYP"@);
        } else if i == nh + 2 + np {
            lemma_trim_space_trimmed(file_type);
        } else if i == nh + 3 + np {
            lemma_trim_space_trimmed("WSZ"@);
        } else if i == nh + 4 + np {
            lemma_trim_space_trimmed(z);
        } else if i == nh + 5 + np {
            lemma_trim_space_trimmed("SNDM"@);
        } else {
            lemma_trim_space_trimmed(md);
        }
    }
    let m = offer_text(join_semi(hp), join_semi(pp), file_type, size, mode);
    assert(offer_tokens(m) =~~= want);
}

/// Encoding an offer and reading it back gives the host name, path, type,
/// size and mode that went in. The host name and the path may hold `"; "`:
/// each is its pieces joined with `"; "`, every piece without `';'`, without
/// leading or trailing whitespace and not a marker token; the type is one
/// such piece.
pub proof fn lemma_offer_round_trip(
    host_pieces: Seq<Seq<char>>,
    path_pieces: Seq<Seq<char>>,
    file_type: Seq<char>,
    size: u64,
    mode: TransferMode,
)
    requires
        plain_pieces(host_pieces),
        plain_pieces(path_pieces),
        is_plain_field(file_type),
    ensures
        offer_fields(
            offer_text(join_semi(host_pieces), join_semi(path_pieces), file_type, size, mode),
        ) == Ok::<(Seq<char>, Seq<char>, Seq<char>, u64, TransferMode), OfferError>(
            (join_semi(host_pieces), join_semi(path_pieces), file_type, size, mode),
        ),
{
    reveal_strlit("WFILE");
    reveal_strlit("WTYP");
    reveal_strlit("WSZ");
    reveal_strlit("SNDM");
    reveal_strlit("legacy");
    reveal_strlit("semi-reliable");
    let hp = host_pieces;
    let pp = path_pieces;
    let nh = hp.len() as int;
    let np = pp.len() as int;
    let z = decimal_text(size as nat);
    lemma_decimal_round_trip(size as nat);
    let md = mode_text(mode);
    let m = offer_text(join_semi(hp), join_semi(pp), file_type, size, mode);
    lemma_offer_body(hp, pp, file_type, size, mode);
    lemma_offer_tokens(hp, pp, file_type, size, mode);
    let toks = offer_tokens(m);
    assert(toks == offer_want(hp, pp, file_type, size, mode));
    assert(z != "SNDM"@) by {
        assert(is_digit(z[0]));
        assert(!is_digit('S'));
    }
    assert("WFILE"@.len() == 5 && "WTYP"@.len() == 4 && "WSZ"@.len() == 3 && "SNDM"@.len() == 4);
    assert("WTYP"@[0] == 'W' && "SNDM"@[0] == 'S');
    assert("WFILE"@ != "WTYP"@ && "WFILE"@ != "WSZ"@ && "WFILE"@ != "SNDM"@);
    assert("WTYP"@ != "WSZ"@ && "WTYP"@ != "SNDM"@ && "WSZ"@ != "SNDM"@);
    assert forall|k: int| 0 <= k < nh + 5 + np implies {
        &&& (k < nh ==> #[trigger] toks[k] != "WFILE"@)
        &&& (k < nh + 1 + np ==> toks[k] != "WTYP"@)
        &&& (k < nh + 3 + np ==> toks[k] != "WSZ"@)
        &&& toks[k] != "SNDM"@
    } by {
        if k < nh {
            assert(toks[k] == hp[k]);
            assert(is_plain_field(hp[k]));
        } else if k == nh {
            assert(toks[k] == "WFILE"@);
        } else if k < nh + 1 + np {
            assert(toks[k] == pp[k - nh - 1]);
            assert(is_plain_field(pp[k - nh - 1]));
        } else if k == nh + 1 + np {
            assert(toks[k] == "WTYP"@);
        } else if k == nh + 2 + np {
            assert(toks[k] == file_type);
        } else if k == nh + 3 + np {
            assert(toks[k] == "WSZ"@);
        } else {
            assert(toks[k] == z);
        }
    }
    lemma_token_at(toks, "WFILE"@, nh);
    lemma_token_at(toks, "WTYP"@, nh + 1 + np);
    lemma_token_at(toks, "WSZ"@, nh + 3 + np);
    lemma_token_at(toks, "SNDM"@, nh + 5 + np);
    assert(toks.subrange(0, nh) =~~= hp);
    assert(toks.subrange(nh + 1, nh + 1 + np) =~~= pp);
    assert(toks[nh + 2 + np] == file_type);
    assert(toks[nh + 4 + np] == z);
    assert(toks[nh + 6 + np] == md);
    assert(mode_of(md) == mode);
}

} // verus!
