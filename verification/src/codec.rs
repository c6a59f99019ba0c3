//! Byte encoding of the wire protocol: each message is one JSON object,
//! `type` first, with every string field escaped for `"` and `\`.
//!
//! `enc_message` is the one definition of the format; `encode` produces
//! exactly it, and `decode` accepts exactly the encodings: `parse_msg` is the
//! parser at the spec level, and `lemma_msg_roundtrip` and `lemma_msg_sound`
//! prove it inverse to `enc_message`.
use vstd::prelude::*;

use crate::lobby::Player;
use crate::lobby::PlayerV;
use crate::messages::Lobby;
use crate::messages::LobbyActionCreate;
use crate::messages::LobbyActionCreateResponse;
use crate::messages::LobbyActionJoin;
use crate::messages::LobbyActionJoinResponse;
use crate::messages::LobbyErrorResponse;
use crate::messages::LobbyMessage;
use crate::messages::LobbyMessageResponse;
use crate::messages::Message;
use crate::messages::MessageV;
use crate::messages::SnapshotV;

verus! {

// ---------------------------------------------------------------------------
// String escaping
// ---------------------------------------------------------------------------
/// How one byte of a string field appears on the wire.
pub open spec fn esc_byte(b: u8) -> Seq<u8> {
    if b == 34 {
        seq![92u8, 34u8]
    } else if b == 92 {
        seq![92u8, 92u8]
    } else {
        seq![b]
    }
}

/// A whole string field, escaped.
pub open spec fn json_escape(s: Seq<u8>) -> Seq<u8>
    decreases s.len(),
{
    if s.len() == 0 {
        Seq::empty()
    } else {
        esc_byte(s[0]) + json_escape(s.drop_first())
    }
}

/// A quoted, escaped string field.
pub open spec fn json_string(s: Seq<u8>) -> Seq<u8> {
    seq![34u8] + json_escape(s) + seq![34u8]
}

/// Escaping distributes over concatenation.
pub proof fn lemma_escape_app(a: Seq<u8>, b: Seq<u8>)
    ensures
        json_escape(a + b) == json_escape(a) + json_escape(b),
    decreases a.len(),
{
    if a.len() == 0 {
        assert(a + b =~= b);
        assert(json_escape(a) + json_escape(b) =~= json_escape(b));
    } else {
        lemma_escape_app(a.drop_first(), b);
        assert((a + b).drop_first() =~= a.drop_first() + b);
        assert(json_escape(a + b) == esc_byte(a[0]) + (json_escape(a.drop_first()) + json_escape(
            b,
        )));
        assert(esc_byte(a[0]) + (json_escape(a.drop_first()) + json_escape(b)) =~= (esc_byte(a[0])
            + json_escape(a.drop_first())) + json_escape(b));
    }
}

// ---------------------------------------------------------------------------
// String parsing
// ---------------------------------------------------------------------------
/// Reads the body of a quoted string (the opening quote already consumed) up
/// to and including the closing quote: the unescaped content and how many
/// bytes were consumed.
pub open spec fn parse_str_body(s: Seq<u8>) -> Option<(Seq<u8>, int)>
    decreases s.len(),
{
    if s.len() == 0 {
        None
    } else if s[0] == 34 {
        Some((Seq::empty(), 1))
    } else if s[0] == 92 {
        if s.len() >= 2 && (s[1] == 34 || s[1] == 92) {
            match parse_str_body(s.skip(2)) {
                Some((c, n)) => Some((seq![s[1]] + c, n + 2)),
                None => None,
            }
        } else {
            None
        }
    } else {
        match parse_str_body(s.skip(1)) {
            Some((c, n)) => Some((seq![s[0]] + c, n + 1)),
            None => None,
        }
    }
}

/// Reads a whole quoted string, quotes included.
pub open spec fn parse_json_string(s: Seq<u8>) -> Option<(Seq<u8>, int)> {
    if s.len() >= 1 && s[0] == 34 {
        match parse_str_body(s.skip(1)) {
            Some((c, n)) => Some((c, n + 1)),
            None => None,
        }
    } else {
        None
    }
}

/// Whatever the string parser accepts is the escape of what it returns.
pub proof fn lemma_str_sound(s: Seq<u8>)
    ensures
        parse_str_body(s) matches Some(r) ==> 1 <= r.1 <= s.len() && s.take(r.1) == json_escape(
            r.0,
        ) + seq![34u8],
    decreases s.len(),
{
    if s.len() == 0 {
    } else if s[0] == 34 {
        assert(s.take(1) =~= seq![34u8]);
        assert(json_escape(Seq::<u8>::empty()) + seq![34u8] =~= seq![34u8]);
    } else if s[0] == 92 {
        if s.len() >= 2 && (s[1] == 34 || s[1] == 92) {
            lemma_str_sound(s.skip(2));
            if let Some((c, n)) = parse_str_body(s.skip(2)) {
                assert(s.take(n + 2) =~= s.take(2) + s.skip(2).take(n));
                assert((seq![s[1]] + c).drop_first() =~= c);
                assert(json_escape(seq![s[1]] + c) == esc_byte(s[1]) + json_escape(c));
                assert(s.take(2) =~= esc_byte(s[1]));
                assert((esc_byte(s[1]) + json_escape(c)) + seq![34u8] =~= esc_byte(s[1]) + (
                json_escape(c) + seq![34u8]));
                assert(s.take(2) + s.skip(2).take(n) =~= esc_byte(s[1]) + (json_escape(c)
                    + seq![34u8]));
            }
        }
    } else {
        lemma_str_sound(s.skip(1));
        if let Some((c, n)) = parse_str_body(s.skip(1)) {
            assert(s.take(n + 1) =~= s.take(1) + s.skip(1).take(n));
            assert((seq![s[0]] + c).drop_first() =~= c);
            assert(json_escape(seq![s[0]] + c) == esc_byte(s[0]) + json_escape(c));
            assert(s.take(1) =~= esc_byte(s[0]));
            assert(s.take(1) + s.skip(1).take(n) =~= esc_byte(s[0]) + (json_escape(c)
                + seq![34u8]));
        }
    }
}

/// The string parser accepts every escaped string and returns it unchanged,
/// whatever follows the closing quote.
pub proof fn lemma_str_roundtrip(c: Seq<u8>, rest: Seq<u8>)
    ensures
        parse_str_body(json_escape(c) + seq![34u8] + rest) == Some(
            (c, json_escape(c).len() + 1int),
        ),
    decreases c.len(),
{
    let s = json_escape(c) + seq![34u8] + rest;
    if c.len() == 0 {
        assert(json_escape(c) =~= Seq::<u8>::empty());
        assert(s[0] == 34);
        assert(parse_str_body(s) == Some((Seq::<u8>::empty(), 1int)));
        assert(c =~= Seq::<u8>::empty());
    } else {
        let b = c[0];
        let c1 = c.drop_first();
        lemma_str_roundtrip(c1, rest);
        let s1 = json_escape(c1) + seq![34u8] + rest;
        assert(json_escape(c) == esc_byte(b) + json_escape(c1));
        if b == 34 || b == 92 {
            assert(esc_byte(b) =~= seq![92u8, b]);
            assert(s.len() >= 2);
            assert(s[0] == 92 && s[1] == b);
            assert(s.skip(2) =~= s1);
            assert(seq![s[1]] + c1 =~= c);
        } else {
            assert(esc_byte(b) =~= seq![b]);
            assert(s[0] == b);
            assert(s.skip(1) =~= s1);
            assert(seq![s[0]] + c1 =~= c);
        }
    }
}

// ---------------------------------------------------------------------------
// Executable string encoding and decoding
// ---------------------------------------------------------------------------
/// Appends a literal run of bytes.
pub fn push_bytes(out: &mut Vec<u8>, bs: &[u8])
    ensures
        final(out)@ == old(out)@ + bs@,
{
    let mut i: usize = 0;
    while i < bs.len()
        invariant
            i <= bs@.len(),
            out@ =~= old(out)@ + bs@.take(i as int),
        decreases bs@.len() - i,
    {
        out.push(bs[i]);
        assert(out@ =~= old(out)@ + bs@.take(i as int + 1));
        i = i + 1;
    }
    assert(out@ =~= old(out)@ + bs@);
}

/// Appends a string field, quoted and escaped.
pub fn push_json_string(out: &mut Vec<u8>, s: &[u8])
    ensures
        final(out)@ == old(out)@ + json_string(s@),
{
    out.push(34);
    let mut i: usize = 0;
    while i < s.len()
        invariant
            i <= s@.len(),
            out@ =~= old(out)@ + seq![34u8] + json_escape(s@.take(i as int)),
        decreases s@.len() - i,
    {
        let b = s[i];
        proof {
            assert(s@.take(i as int + 1) =~= s@.take(i as int) + seq![b]);
            lemma_escape_app(s@.take(i as int), seq![b]);
            assert(json_escape(seq![b]) == esc_byte(b) + json_escape(
                seq![b].drop_first(),
            ));
            assert(seq![b].drop_first() =~= Seq::<u8>::empty());
            assert(json_escape(seq![b]) =~= esc_byte(b));
        }
        if b == 34 {
            out.push(92);
            out.push(34);
        } else if b == 92 {
            out.push(92);
            out.push(92);
        } else {
            out.push(b);
        }
        proof {
            assert(out@ =~= old(out)@ + seq![34u8] + json_escape(s@.take(i as int + 1)));
        }
        i = i + 1;
    }
    out.push(34);
    proof {
        assert(s@.take(s@.len() as int) =~= s@);
        assert(out@ =~= old(out)@ + json_string(s@));
    }
}

/// Reads a string body starting at `i` (just past the opening quote).
pub fn dec_str_body(s: &[u8], i: usize) -> (r: Option<(Vec<u8>, usize)>)
    requires
        i <= s@.len(),
    ensures
        match r {
            Some(p) => parse_str_body(s@.skip(i as int)) == Some((p.0@, p.1 as int)) && i + p.1
                <= s@.len(),
            None => parse_str_body(s@.skip(i as int)) is None,
        },
    decreases s@.len() - i,
{
    proof {
        lemma_slice_len_bound(s);
    }
    let ghost t = s@.skip(i as int);
    if i == s.len() {
        return None;
    }
    let b = s[i];
    proof {
        assert(t[0] == s@[i as int]);
    }
    if b == 34 {
        let c: Vec<u8> = Vec::new();
        proof {
            assert(parse_str_body(t) == Some((Seq::<u8>::empty(), 1int)));
        }
        return Some((c, 1));
    }
    if b == 92 {
        if i + 1 == s.len() {
            proof {
                assert(t.len() < 2);
            }
            return None;
        }
        let e = s[i + 1];
        proof {
            assert(t[1] == s@[i as int + 1]);
        }
        if e == 34 || e == 92 {
            proof {
                assert(t.skip(2) =~= s@.skip(i as int + 2));
            }
            match dec_str_body(s, i + 2) {
                Some((mut c, n)) => {
                    c.insert(0, e);
                    proof {
                        assert(c@ =~= seq![t[1]] + c@.skip(1));
                    }
                    Some((c, n + 2))
                },
                None => None,
            }
        } else {
            None
        }
    } else {
        proof {
            assert(t.skip(1) =~= s@.skip(i as int + 1));
        }
        match dec_str_body(s, i + 1) {
            Some((mut c, n)) => {
                c.insert(0, b);
                proof {
                    assert(c@ =~= seq![t[0]] + c@.skip(1));
                }
                Some((c, n + 1))
            },
            None => None,
        }
    }
}

/// Reads a whole quoted string starting at `i`.
pub fn dec_json_string(s: &[u8], i: usize) -> (r: Option<(Vec<u8>, usize)>)
    requires
        i <= s@.len(),
    ensures
        match r {
            Some(p) => parse_json_string(s@.skip(i as int)) == Some((p.0@, p.1 as int)) && i + p.1
                <= s@.len(),
            None => parse_json_string(s@.skip(i as int)) is None,
        },
{
    proof {
        lemma_slice_len_bound(s);
    }
    let ghost t = s@.skip(i as int);
    if i == s.len() {
        return None;
    }
    proof {
        assert(t[0] == s@[i as int]);
    }
    if s[i] != 34 {
        return None;
    }
    proof {
        assert(t.skip(1) =~= s@.skip(i as int + 1));
    }
    match dec_str_body(s, i + 1) {
        Some((c, n)) => Some((c, n + 1)),
        None => None,
    }
}

// ---------------------------------------------------------------------------
// Wire templates
// ---------------------------------------------------------------------------
pub open spec fn lt_open() -> Seq<u8> {
    seq![123u8, 34, 116, 121, 112, 101, 34, 58]
}

pub open spec fn tag_create() -> Seq<u8> {
    seq![108u8, 111, 98, 98, 121, 95, 97, 99, 116, 105, 111, 110, 95, 99, 114, 101, 97, 116, 101]
}

pub open spec fn tag_create_response() -> Seq<u8> {
    seq![
        108u8,
        111,
        98,
        98,
        121,
        95,
        97,
        99,
        116,
        105,
        111,
        110,
        95,
        99,
        114,
        101,
        97,
        116,
        101,
        95,
        114,
        101,
        115,
        112,
        111,
        110,
        115,
        101,
    ]
}

pub open spec fn tag_join() -> Seq<u8> {
    seq![108u8, 111, 98, 98, 121, 95, 97, 99, 116, 105, 111, 110, 95, 106, 111, 105, 110]
}

pub open spec fn tag_join_response() -> Seq<u8> {
    seq![
        108u8,
        111,
        98,
        98,
        121,
        95,
        97,
        99,
        116,
        105,
        111,
        110,
        95,
        106,
        111,
        105,
        110,
        95,
        114,
        101,
        115,
        112,
        111,
        110,
        115,
        101,
    ]
}

pub open spec fn tag_chat() -> Seq<u8> {
    seq![108u8, 111, 98, 98, 121, 95, 109, 101, 115, 115, 97, 103, 101]
}

pub open spec fn tag_chat_response() -> Seq<u8> {
    seq![
        108u8,
        111,
        98,
        98,
        121,
        95,
        109,
        101,
        115,
        115,
        97,
        103,
        101,
        95,
        114,
        101,
        115,
        112,
        111,
        110,
        115,
        101,
    ]
}

pub open spec fn tag_error_response() -> Seq<u8> {
    seq![
        108u8,
        111,
        98,
        98,
        121,
        95,
        101,
        114,
        114,
        111,
        114,
        95,
        114,
        101,
        115,
        112,
        111,
        110,
        115,
        101,
    ]
}

pub open spec fn lt_name() -> Seq<u8> {
    seq![44u8, 34, 110, 97, 109, 101, 34, 58]
}

pub open spec fn lt_lobby_code() -> Seq<u8> {
    seq![44u8, 34, 108, 111, 98, 98, 121, 95, 99, 111, 100, 101, 34, 58]
}

pub open spec fn lt_body() -> Seq<u8> {
    seq![44u8, 34, 98, 111, 100, 121, 34, 58]
}

pub open spec fn lt_message() -> Seq<u8> {
    seq![44u8, 34, 109, 101, 115, 115, 97, 103, 101, 34, 58]
}

pub open spec fn lt_lobby() -> Seq<u8> {
    seq![44u8, 34, 108, 111, 98, 98, 121, 34, 58]
}

pub open spec fn lt_id() -> Seq<u8> {
    seq![123u8, 34, 105, 100, 34, 58]
}

pub open spec fn lt_players() -> Seq<u8> {
    seq![44u8, 34, 112, 108, 97, 121, 101, 114, 115, 34, 58, 91]
}

pub open spec fn lt_pname() -> Seq<u8> {
    seq![123u8, 34, 110, 97, 109, 101, 34, 58]
}

pub open spec fn lt_cid() -> Seq<u8> {
    seq![44u8, 34, 99, 111, 110, 110, 101, 99, 116, 105, 111, 110, 95, 105, 100, 34, 58]
}

// ---------------------------------------------------------------------------
// Encoding
// ---------------------------------------------------------------------------
/// One roster entry on the wire.
pub open spec fn enc_player(p: PlayerV) -> Seq<u8> {
    lt_pname() + json_string(p.name) + lt_cid() + json_string(p.connection_id) + seq![125u8]
}

/// Second and later roster entries, each after a comma.
pub open spec fn enc_players_rest(ps: Seq<PlayerV>) -> Seq<u8>
    decreases ps.len(),
{
    if ps.len() == 0 {
        Seq::empty()
    } else {
        seq![44u8] + enc_player(ps[0]) + enc_players_rest(ps.drop_first())
    }
}

/// A roster on the wire (the brackets stand outside).
pub open spec fn enc_players(ps: Seq<PlayerV>) -> Seq<u8> {
    if ps.len() == 0 {
        Seq::empty()
    } else {
        enc_player(ps[0]) + enc_players_rest(ps.drop_first())
    }
}

/// A lobby snapshot on the wire.
pub open spec fn enc_snapshot(l: SnapshotV) -> Seq<u8> {
    lt_id() + json_string(l.id) + lt_players() + enc_players(l.players) + seq![93u8, 125u8]
}

/// The tag of each variant.
pub open spec fn msg_tag(m: MessageV) -> Seq<u8> {
    match m {
        MessageV::Create { .. } => tag_create(),
        MessageV::CreateResponse { .. } => tag_create_response(),
        MessageV::Join { .. } => tag_join(),
        MessageV::JoinResponse { .. } => tag_join_response(),
        MessageV::Chat { .. } => tag_chat(),
        MessageV::ChatResponse { .. } => tag_chat_response(),
        MessageV::ErrorResponse { .. } => tag_error_response(),
    }
}

/// The fields of each variant, after the tag and before the closing brace.
pub open spec fn msg_fields(m: MessageV) -> Seq<u8> {
    match m {
        MessageV::Create { name } => lt_name() + json_string(name),
        MessageV::CreateResponse { lobby } => lt_lobby() + enc_snapshot(lobby),
        MessageV::Join { name, lobby_code } => lt_name() + json_string(name) + lt_lobby_code()
            + json_string(lobby_code),
        MessageV::JoinResponse { lobby } => lt_lobby() + enc_snapshot(lobby),
        MessageV::Chat { lobby_code, body } => lt_lobby_code() + json_string(lobby_code)
            + lt_body() + json_string(body),
        MessageV::ChatResponse { name, body } => lt_name() + json_string(name) + lt_body()
            + json_string(body),
        MessageV::ErrorResponse { message } => lt_message() + json_string(message),
    }
}

/// A whole message on the wire: `{"type":"TAG"` then the fields then `}`.
pub open spec fn enc_message(m: MessageV) -> Seq<u8> {
    lt_open() + json_string(msg_tag(m)) + msg_fields(m) + seq![125u8]
}

// ---------------------------------------------------------------------------
// Parsing
// ---------------------------------------------------------------------------
/// Reads one roster entry.
pub open spec fn parse_player(s: Seq<u8>) -> Option<(PlayerV, int)> {
    if s.len() >= 8 && s.take(8) == lt_pname() {
        match parse_json_string(s.skip(8)) {
            Some((name, n1)) => {
                let p1 = 8 + n1;
                if 8 <= p1 && p1 + 17 <= s.len() && s.skip(p1).take(17) == lt_cid() {
                    match parse_json_string(s.skip(p1 + 17)) {
                        Some((cid, n2)) => {
                            let p2 = p1 + 17 + n2;
                            if p2 < s.len() && s[p2] == 125 {
                                Some((PlayerV { name: name, connection_id: cid }, p2 + 1))
                            } else {
                                None
                            }
                        },
                        None => None,
                    }
                } else {
                    None
                }
            },
            None => None,
        }
    } else {
        None
    }
}

/// Reads the roster entries after the first one, up to and including the
/// closing bracket.
pub open spec fn parse_players_rest(s: Seq<u8>) -> Option<(Seq<PlayerV>, int)>
    decreases s.len(),
{
    if s.len() >= 1 && s[0] == 93 {
        Some((Seq::empty(), 1))
    } else if s.len() >= 1 && s[0] == 44 {
        match parse_player(s.skip(1)) {
            Some((p, n)) => {
                if 1 <= n && 1 + n <= s.len() {
                    match parse_players_rest(s.skip(1 + n)) {
                        Some((ps, m)) => Some((seq![p] + ps, 1 + n + m)),
                        None => None,
                    }
                } else {
                    None
                }
            },
            None => None,
        }
    } else {
        None
    }
}

/// Reads a roster, up to and including the closing bracket.
pub open spec fn parse_players(s: Seq<u8>) -> Option<(Seq<PlayerV>, int)> {
    if s.len() >= 1 && s[0] == 93 {
        Some((Seq::empty(), 1))
    } else {
        match parse_player(s) {
            Some((p, n)) => {
                if 1 <= n && n <= s.len() {
                    match parse_players_rest(s.skip(n)) {
                        Some((ps, m)) => Some((seq![p] + ps, n + m)),
                        None => None,
                    }
                } else {
                    None
                }
            },
            None => None,
        }
    }
}

/// Reads a lobby snapshot.
pub open spec fn parse_snapshot(s: Seq<u8>) -> Option<(SnapshotV, int)> {
    if s.len() >= 6 && s.take(6) == lt_id() {
        match parse_json_string(s.skip(6)) {
            Some((id, n1)) => {
                let p1 = 6 + n1;
                if 6 <= p1 && p1 + 12 <= s.len() && s.skip(p1).take(12) == lt_players() {
                    match parse_players(s.skip(p1 + 12)) {
                        Some((ps, n2)) => {
                            let p2 = p1 + 12 + n2;
                            if p2 < s.len() && s[p2] == 125 {
                                Some((SnapshotV { id: id, players: ps }, p2 + 1))
                            } else {
                                None
                            }
                        },
                        None => None,
                    }
                } else {
                    None
                }
            },
            None => None,
        }
    } else {
        None
    }
}

/// Reads `lit` then one string field: the field and the bytes consumed.
pub open spec fn parse_lit_string(s: Seq<u8>, lit: Seq<u8>) -> Option<(Seq<u8>, int)> {
    if s.len() >= lit.len() && s.take(lit.len() as int) == lit {
        match parse_json_string(s.skip(lit.len() as int)) {
            Some((a, n)) => Some((a, lit.len() + n)),
            None => None,
        }
    } else {
        None
    }
}

/// A variant of one string field: `lit` then the field then the closing brace,
/// ending the message.
pub open spec fn parse_one_string(s: Seq<u8>, lit: Seq<u8>) -> Option<Seq<u8>> {
    match parse_lit_string(s, lit) {
        Some((a, n)) => {
            if n < s.len() && s[n] == 125 && n + 1 == s.len() {
                Some(a)
            } else {
                None
            }
        },
        None => None,
    }
}

/// A variant of two string fields.
pub open spec fn parse_two_strings(s: Seq<u8>, l1: Seq<u8>, l2: Seq<u8>) -> Option<
    (Seq<u8>, Seq<u8>),
> {
    match parse_lit_string(s, l1) {
        Some((a, n1)) => {
            if 0 <= n1 <= s.len() {
                match parse_lit_string(s.skip(n1), l2) {
                    Some((b, n2)) => {
                        let p = n1 + n2;
                        if p < s.len() && s[p] == 125 && p + 1 == s.len() {
                            Some((a, b))
                        } else {
                            None
                        }
                    },
                    None => None,
                }
            } else {
                None
            }
        },
        None => None,
    }
}

/// A variant carrying a lobby snapshot.
pub open spec fn parse_lobby_variant(s: Seq<u8>) -> Option<SnapshotV> {
    if s.len() >= 9 && s.take(9) == lt_lobby() {
        match parse_snapshot(s.skip(9)) {
            Some((l, n)) => {
                let p = 9 + n;
                if p < s.len() && s[p] == 125 && p + 1 == s.len() {
                    Some(l)
                } else {
                    None
                }
            },
            None => None,
        }
    } else {
        None
    }
}

/// The message parser: accepts exactly the strings `enc_message` produces.
pub open spec fn parse_msg(s: Seq<u8>) -> Option<MessageV> {
    if s.len() >= 8 && s.take(8) == lt_open() {
        match parse_json_string(s.skip(8)) {
            Some((tag, n)) => {
                let p = 8 + n;
                if 0 <= p <= s.len() {
                    let r = s.skip(p);
                    if tag == tag_create() {
                        match parse_one_string(r, lt_name()) {
                            Some(name) => Some(MessageV::Create { name: name }),
                            None => None,
                        }
                    } else if tag == tag_create_response() {
                        match parse_lobby_variant(r) {
                            Some(l) => Some(MessageV::CreateResponse { lobby: l }),
                            None => None,
                        }
                    } else if tag == tag_join() {
                        match parse_two_strings(r, lt_name(), lt_lobby_code()) {
                            Some((name, code)) => Some(
                                MessageV::Join { name: name, lobby_code: code },
                            ),
                            None => None,
                        }
                    } else if tag == tag_join_response() {
                        match parse_lobby_variant(r) {
                            Some(l) => Some(MessageV::JoinResponse { lobby: l }),
                            None => None,
                        }
                    } else if tag == tag_chat() {
                        match parse_two_strings(r, lt_lobby_code(), lt_body()) {
                            Some((code, body)) => Some(
                                MessageV::Chat { lobby_code: code, body: body },
                            ),
                            None => None,
                        }
                    } else if tag == tag_chat_response() {
                        match parse_two_strings(r, lt_name(), lt_body()) {
                            Some((name, body)) => Some(
                                MessageV::ChatResponse { name: name, body: body },
                            ),
                            None => None,
                        }
                    } else if tag == tag_error_response() {
                        match parse_one_string(r, lt_message()) {
                            Some(message) => Some(MessageV::ErrorResponse { message: message }),
                            None => None,
                        }
                    } else {
                        None
                    }
                } else {
                    None
                }
            },
            None => None,
        }
    } else {
        None
    }
}

// ---------------------------------------------------------------------------
// The parser and the encoder are inverse
// ---------------------------------------------------------------------------
proof fn lemma_pjs_sound(s: Seq<u8>)
    ensures
        parse_json_string(s) matches Some(r) ==> 2 <= r.1 <= s.len() && s.take(r.1)
            == json_string(r.0),
{
    if s.len() >= 1 && s[0] == 34 {
        lemma_str_sound(s.skip(1));
        if let Some((c, n)) = parse_str_body(s.skip(1)) {
            assert(s.skip(1).take(n) == json_escape(c) + seq![34u8]);
            assert(s.take(n + 1) =~= seq![s[0]] + s.skip(1).take(n));
            assert(seq![34u8] + (json_escape(c) + seq![34u8]) =~= json_string(c));
        }
    }
}

proof fn lemma_pjs_roundtrip(c: Seq<u8>, rest: Seq<u8>)
    ensures
        parse_json_string(json_string(c) + rest) == Some((c, json_string(c).len() as int)),
{
    let s = json_string(c) + rest;
    assert(s[0] == 34);
    assert(s.skip(1) =~= json_escape(c) + seq![34u8] + rest);
    lemma_str_roundtrip(c, rest);
    assert(json_string(c).len() == json_escape(c).len() + 2);
}

proof fn lemma_pls_roundtrip(lit: Seq<u8>, a: Seq<u8>, rest: Seq<u8>)
    ensures
        parse_lit_string(lit + json_string(a) + rest, lit) == Some(
            (a, lit.len() + json_string(a).len() as int),
        ),
{
    let s = lit + json_string(a) + rest;
    assert(s.take(lit.len() as int) =~= lit);
    assert(s.skip(lit.len() as int) =~= json_string(a) + rest);
    lemma_pjs_roundtrip(a, rest);
}

proof fn lemma_pls_sound(s: Seq<u8>, lit: Seq<u8>)
    ensures
        parse_lit_string(s, lit) matches Some(r) ==> lit.len() + 2 <= r.1 <= s.len() && s.take(
            r.1,
        ) == lit + json_string(r.0),
{
    if s.len() >= lit.len() && s.take(lit.len() as int) == lit {
        lemma_pjs_sound(s.skip(lit.len() as int));
        if let Some((a, n)) = parse_json_string(s.skip(lit.len() as int)) {
            assert(s.skip(lit.len() as int).take(n) == json_string(a));
            assert(s.take(lit.len() + n) =~= s.take(lit.len() as int) + s.skip(
                lit.len() as int,
            ).take(n));
        }
    }
}

proof fn lemma_one_string_roundtrip(lit: Seq<u8>, a: Seq<u8>)
    ensures
        parse_one_string(lit + json_string(a) + seq![125u8], lit) == Some(a),
{
    let s = lit + json_string(a) + seq![125u8];
    assert(lit + json_string(a) + seq![125u8] =~= (lit + json_string(a)) + seq![125u8]);
    lemma_pls_roundtrip(lit, a, seq![125u8]);
    let n = lit.len() + json_string(a).len();
    assert(s[n as int] == 125);
    assert(n + 1 == s.len());
}

proof fn lemma_one_string_sound(s: Seq<u8>, lit: Seq<u8>)
    ensures
        parse_one_string(s, lit) matches Some(a) ==> s == lit + json_string(a) + seq![125u8],
{
    lemma_pls_sound(s, lit);
    if let Some((a, n)) = parse_lit_string(s, lit) {
        if n < s.len() && s[n] == 125 && n + 1 == s.len() {
            assert(s =~= s.take(n) + seq![s[n]]);
        }
    }
}

proof fn lemma_two_strings_roundtrip(l1: Seq<u8>, a: Seq<u8>, l2: Seq<u8>, b: Seq<u8>)
    ensures
        parse_two_strings(l1 + json_string(a) + l2 + json_string(b) + seq![125u8], l1, l2) == Some(
            (a, b),
        ),
{
    let s = l1 + json_string(a) + l2 + json_string(b) + seq![125u8];
    assert(s =~= (l1 + json_string(a)) + (l2 + json_string(b) + seq![125u8]));
    lemma_pls_roundtrip(l1, a, l2 + json_string(b) + seq![125u8]);
    let n1 = l1.len() + json_string(a).len();
    assert(s.skip(n1 as int) =~= l2 + json_string(b) + seq![125u8]);
    lemma_pls_roundtrip(l2, b, seq![125u8]);
    let n2 = l2.len() + json_string(b).len();
    assert(s[n1 as int + n2 as int] == 125);
    assert(n1 + n2 + 1 == s.len());
}

proof fn lemma_two_strings_sound(s: Seq<u8>, l1: Seq<u8>, l2: Seq<u8>)
    ensures
        parse_two_strings(s, l1, l2) matches Some(r) ==> s == l1 + json_string(r.0) + l2
            + json_string(r.1) + seq![125u8],
{
    lemma_pls_sound(s, l1);
    if let Some((a, n1)) = parse_lit_string(s, l1) {
        if 0 <= n1 <= s.len() {
            lemma_pls_sound(s.skip(n1), l2);
            if let Some((b, n2)) = parse_lit_string(s.skip(n1), l2) {
                let p = n1 + n2;
                if p < s.len() && s[p] == 125 && p + 1 == s.len() {
                    assert(s.skip(n1).take(n2) == l2 + json_string(b));
                    assert(s =~= s.take(n1) + s.skip(n1).take(n2) + seq![s[p]]);
                    assert(s.take(n1) + s.skip(n1).take(n2) + seq![s[p]] =~= l1 + json_string(a)
                        + l2 + json_string(b) + seq![125u8]);
                }
            }
        }
    }
}

proof fn lemma_player_roundtrip(p: PlayerV, rest: Seq<u8>)
    ensures
        parse_player(enc_player(p) + rest) == Some((p, enc_player(p).len() as int)),
{
    let jn = json_string(p.name);
    let jc = json_string(p.connection_id);
    let s = enc_player(p) + rest;
    assert(s.take(8) =~= lt_pname());
    assert(s.skip(8) =~= jn + (lt_cid() + jc + seq![125u8] + rest));
    lemma_pjs_roundtrip(p.name, lt_cid() + jc + seq![125u8] + rest);
    let p1 = 8 + jn.len() as int;
    assert(s.skip(p1) =~= lt_cid() + jc + seq![125u8] + rest);
    assert(s.skip(p1).take(17) =~= lt_cid());
    assert(s.skip(p1 + 17) =~= jc + (seq![125u8] + rest));
    lemma_pjs_roundtrip(p.connection_id, seq![125u8] + rest);
    let p2 = p1 + 17 + jc.len() as int;
    assert(s[p2] == 125);
    assert(p2 + 1 == enc_player(p).len());
    assert(parse_player(s) == Some(
        (PlayerV { name: p.name, connection_id: p.connection_id }, p2 + 1),
    ));
    assert(PlayerV { name: p.name, connection_id: p.connection_id } =~= p);
}

proof fn lemma_player_sound(s: Seq<u8>)
    ensures
        parse_player(s) matches Some(r) ==> 1 <= r.1 <= s.len() && s.take(r.1) == enc_player(r.0),
{
    if s.len() >= 8 && s.take(8) == lt_pname() {
        lemma_pjs_sound(s.skip(8));
        if let Some((name, n1)) = parse_json_string(s.skip(8)) {
            let p1 = 8 + n1;
            if 8 <= p1 && p1 + 17 <= s.len() && s.skip(p1).take(17) == lt_cid() {
                lemma_pjs_sound(s.skip(p1 + 17));
                if let Some((cid, n2)) = parse_json_string(s.skip(p1 + 17)) {
                    let p2 = p1 + 17 + n2;
                    if p2 < s.len() && s[p2] == 125 {
                        assert(s.skip(8).take(n1) == json_string(name));
                        assert(s.skip(p1 + 17).take(n2) == json_string(cid));
                        assert(s.take(p2 + 1) =~= s.take(8) + s.skip(8).take(n1) + s.skip(
                            p1,
                        ).take(17) + s.skip(p1 + 17).take(n2) + seq![s[p2]]);
                        assert(s.take(p2 + 1) =~= enc_player(
                            PlayerV { name: name, connection_id: cid },
                        ));
                    }
                }
            }
        }
    }
}

#[verifier::spinoff_prover]
#[verifier::rlimit(100)]
proof fn lemma_players_rest_roundtrip(ps: Seq<PlayerV>, rest: Seq<u8>)
    ensures
        parse_players_rest(enc_players_rest(ps) + seq![93u8] + rest) == Some(
            (ps, enc_players_rest(ps).len() + 1int),
        ),
    decreases ps.len(),
{
    let s = enc_players_rest(ps) + seq![93u8] + rest;
    if ps.len() == 0 {
        assert(enc_players_rest(ps) =~= Seq::<u8>::empty());
        assert(s[0] == 93);
        assert(ps =~= Seq::<PlayerV>::empty());
    } else {
        let p0 = ps[0];
        let ps1 = ps.drop_first();
        assert(enc_players_rest(ps) == seq![44u8] + enc_player(p0) + enc_players_rest(ps1));
        assert(s[0] == 44);
        let tail = enc_players_rest(ps1) + seq![93u8] + rest;
        assert(s.skip(1) =~= enc_player(p0) + tail);
        lemma_player_roundtrip(p0, tail);
        let ln = enc_player(p0).len() as int;
        assert(ln >= 1);
        assert(s.skip(1 + ln) =~= tail);
        lemma_players_rest_roundtrip(ps1, rest);
        assert(seq![p0] + ps1 =~= ps);
    }
}

#[verifier::spinoff_prover]
#[verifier::rlimit(100)]
proof fn lemma_players_roundtrip(ps: Seq<PlayerV>, rest: Seq<u8>)
    ensures
        parse_players(enc_players(ps) + seq![93u8] + rest) == Some(
            (ps, enc_players(ps).len() + 1int),
        ),
{
    let s = enc_players(ps) + seq![93u8] + rest;
    if ps.len() == 0 {
        assert(enc_players(ps) =~= Seq::<u8>::empty());
        assert(s[0] == 93);
        assert(ps =~= Seq::<PlayerV>::empty());
    } else {
        let p0 = ps[0];
        let ps1 = ps.drop_first();
        assert(enc_players(ps) == enc_player(p0) + enc_players_rest(ps1));
        assert(enc_player(p0)[0] == 123);
        assert(s[0] == 123);
        let tail = enc_players_rest(ps1) + seq![93u8] + rest;
        assert(s =~= enc_player(p0) + tail);
        lemma_player_roundtrip(p0, tail);
        let ln = enc_player(p0).len() as int;
        assert(ln >= 1);
        assert(s.skip(ln) =~= tail);
        lemma_players_rest_roundtrip(ps1, rest);
        assert(seq![p0] + ps1 =~= ps);
    }
}

proof fn lemma_players_rest_sound(s: Seq<u8>)
    ensures
        parse_players_rest(s) matches Some(r) ==> 1 <= r.1 <= s.len() && s.take(r.1)
            == enc_players_rest(r.0) + seq![93u8],
    decreases s.len(),
{
    if s.len() >= 1 && s[0] == 93 {
        assert(s.take(1) =~= seq![93u8]);
        assert(enc_players_rest(Seq::<PlayerV>::empty()) + seq![93u8] =~= seq![93u8]);
    } else if s.len() >= 1 && s[0] == 44 {
        lemma_player_sound(s.skip(1));
        if let Some((p, n)) = parse_player(s.skip(1)) {
            if 1 <= n && 1 + n <= s.len() {
                lemma_players_rest_sound(s.skip(1 + n));
                if let Some((ps, m)) = parse_players_rest(s.skip(1 + n)) {
                    assert(s.skip(1).take(n) == enc_player(p));
                    assert(s.skip(1 + n).take(m) == enc_players_rest(ps) + seq![93u8]);
                    assert(s.take(1 + n + m) =~= seq![s[0]] + s.skip(1).take(n) + s.skip(
                        1 + n,
                    ).take(m));
                    assert((seq![p] + ps).drop_first() =~= ps);
                    assert(enc_players_rest(seq![p] + ps) == seq![44u8] + enc_player(p)
                        + enc_players_rest(ps));
                    assert(s.take(1 + n + m) =~= enc_players_rest(seq![p] + ps) + seq![93u8]);
                }
            }
        }
    }
}

proof fn lemma_players_sound(s: Seq<u8>)
    ensures
        parse_players(s) matches Some(r) ==> 1 <= r.1 <= s.len() && s.take(r.1) == enc_players(
            r.0,
        ) + seq![93u8],
{
    if s.len() >= 1 && s[0] == 93 {
        assert(s.take(1) =~= seq![93u8]);
        assert(enc_players(Seq::<PlayerV>::empty()) + seq![93u8] =~= seq![93u8]);
    } else {
        lemma_player_sound(s);
        if let Some((p, n)) = parse_player(s) {
            if 1 <= n && n <= s.len() {
                lemma_players_rest_sound(s.skip(n));
                if let Some((ps, m)) = parse_players_rest(s.skip(n)) {
                    assert(s.take(n) == enc_player(p));
                    assert(s.skip(n).take(m) == enc_players_rest(ps) + seq![93u8]);
                    assert(s.take(n + m) =~= s.take(n) + s.skip(n).take(m));
                    assert((seq![p] + ps).drop_first() =~= ps);
                    assert(enc_players(seq![p] + ps) == enc_player(p) + enc_players_rest(ps));
                    assert(s.take(n + m) =~= enc_players(seq![p] + ps) + seq![93u8]);
                }
            }
        }
    }
}

#[verifier::spinoff_prover]
#[verifier::rlimit(100)]
proof fn lemma_snapshot_roundtrip(l: SnapshotV, rest: Seq<u8>)
    ensures
        parse_snapshot(enc_snapshot(l) + rest) == Some((l, enc_snapshot(l).len() as int)),
{
    let ji = json_string(l.id);
    let ep = enc_players(l.players);
    let s = enc_snapshot(l) + rest;
    assert(s.take(6) =~= lt_id());
    assert(s.skip(6) =~= ji + (lt_players() + ep + seq![93u8, 125u8] + rest));
    lemma_pjs_roundtrip(l.id, lt_players() + ep + seq![93u8, 125u8] + rest);
    let p1 = 6 + ji.len() as int;
    assert(s.skip(p1) =~= lt_players() + ep + seq![93u8, 125u8] + rest);
    assert(s.skip(p1).take(12) =~= lt_players());
    assert(s.skip(p1 + 12) =~= ep + seq![93u8] + (seq![125u8] + rest));
    lemma_players_roundtrip(l.players, seq![125u8] + rest);
    let p2 = p1 + 12 + ep.len() as int + 1;
    assert(s[p2] == 125);
    assert(p2 + 1 == enc_snapshot(l).len());
    assert(SnapshotV { id: l.id, players: l.players } =~= l);
}

#[verifier::spinoff_prover]
#[verifier::rlimit(100)]
proof fn lemma_snapshot_sound(s: Seq<u8>)
    ensures
        parse_snapshot(s) matches Some(r) ==> 1 <= r.1 <= s.len() && s.take(r.1) == enc_snapshot(
            r.0,
        ),
{
    if s.len() >= 6 && s.take(6) == lt_id() {
        lemma_pjs_sound(s.skip(6));
        if let Some((id, n1)) = parse_json_string(s.skip(6)) {
            let p1 = 6 + n1;
            if 6 <= p1 && p1 + 12 <= s.len() && s.skip(p1).take(12) == lt_players() {
                lemma_players_sound(s.skip(p1 + 12));
                if let Some((ps, n2)) = parse_players(s.skip(p1 + 12)) {
                    let p2 = p1 + 12 + n2;
                    if p2 < s.len() && s[p2] == 125 {
                        assert(s.skip(6).take(n1) == json_string(id));
                        assert(s.skip(p1 + 12).take(n2) == enc_players(ps) + seq![93u8]);
                        assert(s.take(p2 + 1) =~= s.take(6) + s.skip(6).take(n1) + s.skip(
                            p1,
                        ).take(12) + s.skip(p1 + 12).take(n2) + seq![s[p2]]);
                        assert(s.take(p2 + 1) =~= enc_snapshot(
                            SnapshotV { id: id, players: ps },
                        ));
                    }
                }
            }
        }
    }
}

proof fn lemma_lobby_variant_roundtrip(l: SnapshotV)
    ensures
        parse_lobby_variant(lt_lobby() + enc_snapshot(l) + seq![125u8]) == Some(l),
{
    let s = lt_lobby() + enc_snapshot(l) + seq![125u8];
    assert(s.take(9) =~= lt_lobby());
    assert(s.skip(9) =~= enc_snapshot(l) + seq![125u8]);
    lemma_snapshot_roundtrip(l, seq![125u8]);
    let p = 9 + enc_snapshot(l).len() as int;
    assert(s[p] == 125);
    assert(p + 1 == s.len());
}

proof fn lemma_lobby_variant_sound(s: Seq<u8>)
    ensures
        parse_lobby_variant(s) matches Some(l) ==> s == lt_lobby() + enc_snapshot(l)
            + seq![125u8],
{
    if s.len() >= 9 && s.take(9) == lt_lobby() {
        lemma_snapshot_sound(s.skip(9));
        if let Some((l, n)) = parse_snapshot(s.skip(9)) {
            let p = 9 + n;
            if p < s.len() && s[p] == 125 && p + 1 == s.len() {
                assert(s.skip(9).take(n) == enc_snapshot(l));
                assert(s =~= s.take(9) + s.skip(9).take(n) + seq![s[p]]);
                assert(s =~= lt_lobby() + enc_snapshot(l) + seq![125u8]);
            }
        }
    }
}

/// Every encoded message parses back to itself: nothing of a message is lost
/// on the wire.
#[verifier::spinoff_prover]
#[verifier::rlimit(100)]
pub proof fn lemma_msg_roundtrip(v: MessageV)
    ensures
        parse_msg(enc_message(v)) == Some(v),
{
    let s = enc_message(v);
    let tag = msg_tag(v);
    let jt = json_string(tag);
    assert(s.take(8) =~= lt_open());
    assert(s.skip(8) =~= jt + (msg_fields(v) + seq![125u8]));
    lemma_pjs_roundtrip(tag, msg_fields(v) + seq![125u8]);
    let p = 8 + jt.len() as int;
    let r = s.skip(p);
    assert(r =~= msg_fields(v) + seq![125u8]);
    assert(tag_create().len() == 19);
    assert(tag_create_response().len() == 28);
    assert(tag_join().len() == 17);
    assert(tag_join_response().len() == 26);
    assert(tag_chat().len() == 13);
    assert(tag_chat_response().len() == 22);
    assert(tag_error_response().len() == 20);
    match v {
        MessageV::Create { name } => {
            assert(r =~= lt_name() + json_string(name) + seq![125u8]);
            lemma_one_string_roundtrip(lt_name(), name);
        },
        MessageV::CreateResponse { lobby } => {
            assert(r =~= lt_lobby() + enc_snapshot(lobby) + seq![125u8]);
            lemma_lobby_variant_roundtrip(lobby);
        },
        MessageV::Join { name, lobby_code } => {
            assert(r =~= lt_name() + json_string(name) + lt_lobby_code() + json_string(lobby_code)
                + seq![125u8]);
            lemma_two_strings_roundtrip(lt_name(), name, lt_lobby_code(), lobby_code);
        },
        MessageV::JoinResponse { lobby } => {
            assert(r =~= lt_lobby() + enc_snapshot(lobby) + seq![125u8]);
            lemma_lobby_variant_roundtrip(lobby);
        },
        MessageV::Chat { lobby_code, body } => {
            assert(r =~= lt_lobby_code() + json_string(lobby_code) + lt_body() + json_string(body)
                + seq![125u8]);
            lemma_two_strings_roundtrip(lt_lobby_code(), lobby_code, lt_body(), body);
        },
        MessageV::ChatResponse { name, body } => {
            assert(r =~= lt_name() + json_string(name) + lt_body() + json_string(body)
                + seq![125u8]);
            lemma_two_strings_roundtrip(lt_name(), name, lt_body(), body);
        },
        MessageV::ErrorResponse { message } => {
            assert(r =~= lt_message() + json_string(message) + seq![125u8]);
            lemma_one_string_roundtrip(lt_message(), message);
        },
    }
}

proof fn lemma_msg_assemble(s: Seq<u8>, tag: Seq<u8>, n: int, v: MessageV)
    requires
        s.len() >= 8,
        s.take(8) == lt_open(),
        0 <= n,
        8 + n <= s.len(),
        s.skip(8).take(n) == json_string(tag),
        tag == msg_tag(v),
        s.skip(8 + n) == msg_fields(v) + seq![125u8],
    ensures
        s == enc_message(v),
{
    assert(s =~= s.take(8) + s.skip(8).take(n) + s.skip(8 + n));
}

/// Whatever the parser accepts is the encoding of what it returns: the parser
/// admits no second wire form.
#[verifier::spinoff_prover]
#[verifier::rlimit(100)]
pub proof fn lemma_msg_sound(s: Seq<u8>)
    ensures
        parse_msg(s) matches Some(v) ==> s == enc_message(v),
{
    if s.len() >= 8 && s.take(8) == lt_open() {
        lemma_pjs_sound(s.skip(8));
        if let Some((tag, n)) = parse_json_string(s.skip(8)) {
            let p = 8 + n;
            if 0 <= p <= s.len() {
                let r = s.skip(p);
                assert(s.skip(8).take(n) == json_string(tag));
                if tag == tag_create() {
                    lemma_one_string_sound(r, lt_name());
                    if let Some(name) = parse_one_string(r, lt_name()) {
                        let v = MessageV::Create { name: name };
                        assert(r == msg_fields(v) + seq![125u8]);
                        lemma_msg_assemble(s, tag, n, v);
                    }
                } else if tag == tag_create_response() {
                    lemma_lobby_variant_sound(r);
                    if let Some(l) = parse_lobby_variant(r) {
                        let v = MessageV::CreateResponse { lobby: l };
                        assert(r == msg_fields(v) + seq![125u8]);
                        lemma_msg_assemble(s, tag, n, v);
                    }
                } else if tag == tag_join() {
                    lemma_two_strings_sound(r, lt_name(), lt_lobby_code());
                    if let Some((name, code)) = parse_two_strings(r, lt_name(), lt_lobby_code()) {
                        let v = MessageV::Join { name: name, lobby_code: code };
                        assert(r == msg_fields(v) + seq![125u8]);
                        lemma_msg_assemble(s, tag, n, v);
                    }
                } else if tag == tag_join_response() {
                    lemma_lobby_variant_sound(r);
                    if let Some(l) = parse_lobby_variant(r) {
                        let v = MessageV::JoinResponse { lobby: l };
                        assert(r == msg_fields(v) + seq![125u8]);
                        lemma_msg_assemble(s, tag, n, v);
                    }
                } else if tag == tag_chat() {
                    lemma_two_strings_sound(r, lt_lobby_code(), lt_body());
                    if let Some((code, body)) = parse_two_strings(r, lt_lobby_code(), lt_body()) {
                        let v = MessageV::Chat { lobby_code: code, body: body };
                        assert(r == msg_fields(v) + seq![125u8]);
                        lemma_msg_assemble(s, tag, n, v);
                    }
                } else if tag == tag_chat_response() {
                    lemma_two_strings_sound(r, lt_name(), lt_body());
                    if let Some((name, body)) = parse_two_strings(r, lt_name(), lt_body()) {
                        let v = MessageV::ChatResponse { name: name, body: body };
                        assert(r == msg_fields(v) + seq![125u8]);
                        lemma_msg_assemble(s, tag, n, v);
                    }
                } else if tag == tag_error_response() {
                    lemma_one_string_sound(r, lt_message());
                    if let Some(message) = parse_one_string(r, lt_message()) {
                        let v = MessageV::ErrorResponse { message: message };
                        assert(r == msg_fields(v) + seq![125u8]);
                        lemma_msg_assemble(s, tag, n, v);
                    }
                }
            }
        }
    }
}

// ---------------------------------------------------------------------------
// Executable encoding
// ---------------------------------------------------------------------------
proof fn lemma_enc_players_rest_push(a: Seq<PlayerV>, p: PlayerV)
    ensures
        enc_players_rest(a.push(p)) == enc_players_rest(a) + seq![44u8] + enc_player(p),
    decreases a.len(),
{
    if a.len() == 0 {
        assert(a.push(p).drop_first() =~= Seq::<PlayerV>::empty());
        assert(a.push(p)[0] == p);
        assert(enc_players_rest(a.push(p)) == seq![44u8] + enc_player(p) + enc_players_rest(
            Seq::<PlayerV>::empty(),
        ));
        assert(enc_players_rest(a) =~= Seq::<u8>::empty());
        assert(enc_players_rest(a.push(p)) =~= enc_players_rest(a) + seq![44u8] + enc_player(p));
    } else {
        lemma_enc_players_rest_push(a.drop_first(), p);
        assert(a.push(p).drop_first() =~= a.drop_first().push(p));
        assert(a.push(p)[0] == a[0]);
        assert(enc_players_rest(a.push(p)) == seq![44u8] + enc_player(a[0]) + (enc_players_rest(
            a.drop_first(),
        ) + seq![44u8] + enc_player(p)));
        assert(seq![44u8] + enc_player(a[0]) + (enc_players_rest(a.drop_first()) + seq![44u8]
            + enc_player(p)) =~= (seq![44u8] + enc_player(a[0]) + enc_players_rest(
            a.drop_first(),
        )) + seq![44u8] + enc_player(p));
    }
}

proof fn lemma_enc_players_push(a: Seq<PlayerV>, p: PlayerV)
    ensures
        enc_players(a.push(p)) == enc_players(a) + (if a.len() == 0 {
            enc_player(p)
        } else {
            seq![44u8] + enc_player(p)
        }),
{
    if a.len() == 0 {
        assert(a.push(p)[0] == p);
        assert(a.push(p).drop_first() =~= Seq::<PlayerV>::empty());
        assert(enc_players(a.push(p)) =~= enc_player(p));
        assert(enc_players(a) =~= Seq::<u8>::empty());
        assert(enc_players(a) + enc_player(p) =~= enc_player(p));
    } else {
        lemma_enc_players_rest_push(a.drop_first(), p);
        assert(a.push(p)[0] == a[0]);
        assert(a.push(p).drop_first() =~= a.drop_first().push(p));
        assert(enc_players(a.push(p)) == enc_player(a[0]) + (enc_players_rest(a.drop_first())
            + seq![44u8] + enc_player(p)));
        assert(enc_player(a[0]) + (enc_players_rest(a.drop_first()) + seq![44u8] + enc_player(p))
            =~= (enc_player(a[0]) + enc_players_rest(a.drop_first())) + (seq![44u8] + enc_player(
            p,
        )));
    }
}

/// Appends one roster entry.
fn push_player(out: &mut Vec<u8>, p: &crate::lobby::Player)
    ensures
        final(out)@ == old(out)@ + enc_player(p@),
{
    let l_pname: &[u8] = &[123, 34, 110, 97, 109, 101, 34, 58];
    let l_cid: &[u8] = &[44, 34, 99, 111, 110, 110, 101, 99, 116, 105, 111, 110, 95, 105, 100, 34,
        58];
    proof {
        assert(l_pname@ =~= lt_pname());
        assert(l_cid@ =~= lt_cid());
    }
    push_bytes(out, l_pname);
    push_json_string(out, p.name.as_slice());
    push_bytes(out, l_cid);
    push_json_string(out, p.connection_id.as_slice());
    out.push(125);
    proof {
        assert(out@ =~= old(out)@ + enc_player(p@));
    }
}

/// Appends a lobby snapshot.
fn push_snapshot(out: &mut Vec<u8>, l: &Lobby)
    ensures
        final(out)@ == old(out)@ + enc_snapshot(l@),
{
    let l_id: &[u8] = &[123, 34, 105, 100, 34, 58];
    let l_players: &[u8] = &[44, 34, 112, 108, 97, 121, 101, 114, 115, 34, 58, 91];
    let l_close: &[u8] = &[93, 125];
    proof {
        assert(l_id@ =~= lt_id());
        assert(l_players@ =~= lt_players());
        assert(l_close@ =~= seq![93u8, 125u8]);
    }
    push_bytes(out, l_id);
    push_json_string(out, l.id.as_slice());
    push_bytes(out, l_players);
    let ghost base = out@;
    let ghost ps = l@.players;
    let mut i: usize = 0;
    while i < l.players.len()
        invariant
            i <= l.players@.len(),
            ps == l@.players,
            ps.len() == l.players@.len(),
            forall|j: int| 0 <= j < ps.len() ==> ps[j] == #[trigger] l.players@[j]@,
            out@ =~= base + enc_players(ps.take(i as int)),
        decreases l.players@.len() - i,
    {
        if i > 0 {
            out.push(44);
            push_player(out, &l.players[i]);
        } else {
            push_player(out, &l.players[i]);
        }
        proof {
            assert(ps.take(i as int + 1) =~= ps.take(i as int).push(ps[i as int]));
            lemma_enc_players_push(ps.take(i as int), ps[i as int]);
            assert(out@ =~= base + enc_players(ps.take(i as int + 1)));
        }
        i = i + 1;
    }
    proof {
        assert(ps.take(ps.len() as int) =~= ps);
    }
    push_bytes(out, l_close);
    proof {
        assert(out@ =~= old(out)@ + enc_snapshot(l@));
    }
}

/// Encode a message for the wire: exactly `enc_message` of it.
pub fn encode(m: &Message) -> (out: Vec<u8>)
    ensures
        out@ == enc_message(m@),
        parse_msg(out@) == Some(m@),
{
    proof {
        lemma_msg_roundtrip(m@);
    }
    encode_raw(m)
}

/// The writer proper: the tagged object, piece by piece.
#[verifier::spinoff_prover]
#[verifier::rlimit(100)]
fn encode_raw(m: &Message) -> (out: Vec<u8>)
    ensures
        out@ == enc_message(m@),
{
    let l_open: &[u8] = &[123, 34, 116, 121, 112, 101, 34, 58];
    let l_name: &[u8] = &[44, 34, 110, 97, 109, 101, 34, 58];
    let l_code: &[u8] = &[44, 34, 108, 111, 98, 98, 121, 95, 99, 111, 100, 101, 34, 58];
    let l_body: &[u8] = &[44, 34, 98, 111, 100, 121, 34, 58];
    let l_msg: &[u8] = &[44, 34, 109, 101, 115, 115, 97, 103, 101, 34, 58];
    let l_lobby: &[u8] = &[44, 34, 108, 111, 98, 98, 121, 34, 58];
    proof {
        assert(l_open@ =~= lt_open());
        assert(l_name@ =~= lt_name());
        assert(l_code@ =~= lt_lobby_code());
        assert(l_body@ =~= lt_body());
        assert(l_msg@ =~= lt_message());
        assert(l_lobby@ =~= lt_lobby());
    }
    let mut out: Vec<u8> = Vec::new();
    push_bytes(&mut out, l_open);
    match m {
        Message::LobbyActionCreate(e) => {
            let tag: &[u8] = &[108, 111, 98, 98, 121, 95, 97, 99, 116, 105, 111, 110, 95, 99, 114,
                101, 97, 116, 101];
            proof {
                assert(tag@ =~= tag_create());
            }
            push_json_string(&mut out, tag);
            push_bytes(&mut out, l_name);
            push_json_string(&mut out, e.name.as_slice());
        },
        Message::LobbyActionCreateResponse(e) => {
            let tag: &[u8] = &[108, 111, 98, 98, 121, 95, 97, 99, 116, 105, 111, 110, 95, 99, 114,
                101, 97, 116, 101, 95, 114, 101, 115, 112, 111, 110, 115, 101];
            proof {
                assert(tag@ =~= tag_create_response());
            }
            push_json_string(&mut out, tag);
            push_bytes(&mut out, l_lobby);
            push_snapshot(&mut out, &e.lobby);
        },
        Message::LobbyActionJoin(e) => {
            let tag: &[u8] = &[108, 111, 98, 98, 121, 95, 97, 99, 116, 105, 111, 110, 95, 106,
                111, 105, 110];
            proof {
                assert(tag@ =~= tag_join());
            }
            push_json_string(&mut out, tag);
            push_bytes(&mut out, l_name);
            push_json_string(&mut out, e.name.as_slice());
            push_bytes(&mut out, l_code);
            push_json_string(&mut out, e.lobby_code.as_slice());
        },
        Message::LobbyActionJoinResponse(e) => {
            let tag: &[u8] = &[108, 111, 98, 98, 121, 95, 97, 99, 116, 105, 111, 110, 95, 106,
                111, 105, 110, 95, 114, 101, 115, 112, 111, 110, 115, 101];
            proof {
                assert(tag@ =~= tag_join_response());
            }
            push_json_string(&mut out, tag);
            push_bytes(&mut out, l_lobby);
            push_snapshot(&mut out, &e.lobby);
        },
        Message::LobbyMessage(e) => {
            let tag: &[u8] = &[108, 111, 98, 98, 121, 95, 109, 101, 115, 115, 97, 103, 101];
            proof {
                assert(tag@ =~= tag_chat());
            }
            push_json_string(&mut out, tag);
            push_bytes(&mut out, l_code);
            push_json_string(&mut out, e.lobby_code.as_slice());
            push_bytes(&mut out, l_body);
            push_json_string(&mut out, e.body.as_slice());
        },
        Message::LobbyMessageResponse(e) => {
            let tag: &[u8] = &[108, 111, 98, 98, 121, 95, 109, 101, 115, 115, 97, 103, 101, 95,
                114, 101, 115, 112, 111, 110, 115, 101];
            proof {
                assert(tag@ =~= tag_chat_response());
            }
            push_json_string(&mut out, tag);
            push_bytes(&mut out, l_name);
            push_json_string(&mut out, e.name.as_slice());
            push_bytes(&mut out, l_body);
            push_json_string(&mut out, e.body.as_slice());
        },
        Message::LobbyErrorResponse(e) => {
            let tag: &[u8] = &[108, 111, 98, 98, 121, 95, 101, 114, 114, 111, 114, 95, 114, 101,
                115, 112, 111, 110, 115, 101];
            proof {
                assert(tag@ =~= tag_error_response());
            }
            push_json_string(&mut out, tag);
            push_bytes(&mut out, l_msg);
            push_json_string(&mut out, e.message.as_slice());
        },
    }
    out.push(125);
    proof {
        assert(out@ =~= enc_message(m@));
    }
    out
}

// ---------------------------------------------------------------------------
// Executable decoding
// ---------------------------------------------------------------------------
/// A slice is never longer than the address space.
proof fn lemma_slice_len_bound(s: &[u8])
    ensures
        s@.len() <= usize::MAX,
{
    assert(vstd::slice::spec_slice_len(s) == s@.len());
}

/// Byte-slice equality.
fn eq_slices(a: &[u8], b: &[u8]) -> (r: bool)
    ensures
        r == (a@ == b@),
{
    if a.len() != b.len() {
        assert(a@ != b@) by {
            assert(a@.len() != b@.len());
        }
        return false;
    }
    let mut i: usize = 0;
    while i < a.len()
        invariant
            i <= a@.len(),
            a@.len() == b@.len(),
            forall|j: int| 0 <= j < i ==> a@[j] == b@[j],
        decreases a@.len() - i,
    {
        if a[i] != b[i] {
            return false;
        }
        i = i + 1;
    }
    assert(a@ =~= b@);
    true
}

/// Does `lit` stand at position `i` of `s`?
fn match_lit(s: &[u8], i: usize, lit: &[u8]) -> (r: bool)
    requires
        i <= s@.len(),
    ensures
        r == (i + lit@.len() <= s@.len() && s@.skip(i as int).take(lit@.len() as int) == lit@),
{
    if lit.len() > s.len() - i {
        return false;
    }
    proof {
        lemma_slice_len_bound(s);
    }
    let mut j: usize = 0;
    while j < lit.len()
        invariant
            j <= lit@.len(),
            i + lit@.len() <= s@.len(),
            s@.len() <= usize::MAX,
            forall|k: int| 0 <= k < j ==> s@[i + k] == lit@[k],
        decreases lit@.len() - j,
    {
        if s[i + j] != lit[j] {
            proof {
                if s@.skip(i as int).take(lit@.len() as int) == lit@ {
                    assert(s@.skip(i as int).take(lit@.len() as int)[j as int] == s@[i + j]);
                }
            }
            return false;
        }
        j = j + 1;
    }
    proof {
        assert(s@.skip(i as int).take(lit@.len() as int) =~= lit@);
    }
    true
}

/// Reads `lit` then one string field starting at `p`.
fn dec_lit_string(s: &[u8], p: usize, lit: &[u8]) -> (r: Option<(Vec<u8>, usize)>)
    requires
        p <= s@.len(),
    ensures
        match r {
            Some(q) => parse_lit_string(s@.skip(p as int), lit@) == Some((q.0@, q.1 as int)) && p
                + q.1 <= s@.len() && q.1 >= lit@.len(),
            None => parse_lit_string(s@.skip(p as int), lit@) is None,
        },
{
    proof {
        lemma_slice_len_bound(s);
    }
    let ghost t = s@.skip(p as int);
    if !match_lit(s, p, lit) {
        return None;
    }
    let q0 = p + lit.len();
    proof {
        assert(t.skip(lit@.len() as int) =~= s@.skip(q0 as int));
    }
    match dec_json_string(s, q0) {
        Some((a, n)) => Some((a, lit.len() + n)),
        None => None,
    }
}

/// Reads a one-string-field variant body starting at `p`: `lit`, the field,
/// and the closing brace ending the input.
fn dec_one_string(s: &[u8], p: usize, lit: &[u8]) -> (r: Option<Vec<u8>>)
    requires
        p <= s@.len(),
    ensures
        match r {
            Some(a) => parse_one_string(s@.skip(p as int), lit@) == Some(a@),
            None => parse_one_string(s@.skip(p as int), lit@) is None,
        },
{
    proof {
        lemma_slice_len_bound(s);
    }
    let ghost t = s@.skip(p as int);
    match dec_lit_string(s, p, lit) {
        Some((a, n)) => {
            let q = p + n;
            proof {
                assert(t.len() == s@.len() - p);
                if q < s.len() {
                    assert(t[n as int] == s@[q as int]);
                }
            }
            if q < s.len() && s[q] == 125 && q + 1 == s.len() {
                Some(a)
            } else {
                None
            }
        },
        None => None,
    }
}

/// Reads a two-string-field variant body starting at `p`.
fn dec_two_strings(s: &[u8], p: usize, l1: &[u8], l2: &[u8]) -> (r: Option<(Vec<u8>, Vec<u8>)>)
    requires
        p <= s@.len(),
    ensures
        match r {
            Some(q) => parse_two_strings(s@.skip(p as int), l1@, l2@) == Some((q.0@, q.1@)),
            None => parse_two_strings(s@.skip(p as int), l1@, l2@) is None,
        },
{
    proof {
        lemma_slice_len_bound(s);
    }
    let ghost t = s@.skip(p as int);
    match dec_lit_string(s, p, l1) {
        Some((a, n1)) => {
            proof {
                assert(t.skip(n1 as int) =~= s@.skip(p as int + n1 as int));
                assert(0 <= n1 as int <= t.len());
            }
            match dec_lit_string(s, p + n1, l2) {
                Some((b, n2)) => {
                    let q = p + n1 + n2;
                    proof {
                        assert(t.len() == s@.len() - p);
                        if q < s.len() {
                            assert(t[n1 as int + n2 as int] == s@[q as int]);
                        }
                    }
                    if q < s.len() && s[q] == 125 && q + 1 == s.len() {
                        Some((a, b))
                    } else {
                        None
                    }
                },
                None => None,
            }
        },
        None => None,
    }
}

/// Reads one roster entry starting at `i`.
fn dec_player(s: &[u8], i: usize) -> (r: Option<(Player, usize)>)
    requires
        i <= s@.len(),
    ensures
        match r {
            Some(q) => parse_player(s@.skip(i as int)) == Some((q.0@, q.1 as int)) && i + q.1
                <= s@.len() && q.1 >= 1,
            None => parse_player(s@.skip(i as int)) is None,
        },
{
    proof {
        lemma_slice_len_bound(s);
    }
    let ghost t = s@.skip(i as int);
    let l_pname: &[u8] = &[123, 34, 110, 97, 109, 101, 34, 58];
    let l_cid: &[u8] = &[44, 34, 99, 111, 110, 110, 101, 99, 116, 105, 111, 110, 95, 105, 100, 34,
        58];
    proof {
        assert(l_pname@ =~= lt_pname());
        assert(l_cid@ =~= lt_cid());
    }
    if !match_lit(s, i, l_pname) {
        return None;
    }
    proof {
        assert(t.skip(8) =~= s@.skip(i as int + 8));
    }
    match dec_json_string(s, i + 8) {
        Some((name, n1)) => {
            let p1 = i + 8 + n1;
            proof {
                assert(t.skip(8 + n1 as int) =~= s@.skip(p1 as int));
            }
            if !match_lit(s, p1, l_cid) {
                return None;
            }
            proof {
                assert(t.skip(8 + n1 as int + 17) =~= s@.skip(p1 as int + 17));
            }
            match dec_json_string(s, p1 + 17) {
                Some((cid, n2)) => {
                    let p2 = p1 + 17 + n2;
                    proof {
                        assert(t.len() == s@.len() - i);
                        if p2 < s.len() {
                            assert(t[8 + n1 as int + 17 + n2 as int] == s@[p2 as int]);
                        }
                    }
                    if p2 < s.len() && s[p2] == 125 {
                        let consumed = p2 + 1 - i;
                        Some((Player { name: name, connection_id: cid }, consumed))
                    } else {
                        None
                    }
                },
                None => None,
            }
        },
        None => None,
    }
}

/// Reads the roster entries after the first, through the closing bracket.
fn dec_players_rest(s: &[u8], i: usize) -> (r: Option<(Vec<Player>, usize)>)
    requires
        i <= s@.len(),
    ensures
        match r {
            Some(q) => parse_players_rest(s@.skip(i as int)) == Some(
                (q.0@.map_values(|p: Player| p@), q.1 as int),
            ) && i + q.1 <= s@.len(),
            None => parse_players_rest(s@.skip(i as int)) is None,
        },
    decreases s@.len() - i,
{
    proof {
        lemma_slice_len_bound(s);
    }
    let ghost t = s@.skip(i as int);
    if i == s.len() {
        return None;
    }
    proof {
        assert(t[0] == s@[i as int]);
    }
    if s[i] == 93 {
        let ps: Vec<Player> = Vec::new();
        proof {
            assert(ps@.map_values(|p: Player| p@) =~= Seq::<PlayerV>::empty());
        }
        return Some((ps, 1));
    }
    if s[i] != 44 {
        return None;
    }
    proof {
        assert(t.skip(1) =~= s@.skip(i as int + 1));
    }
    match dec_player(s, i + 1) {
        Some((p, n)) => {
            proof {
                assert(t.skip(1 + n as int) =~= s@.skip(i as int + 1 + n as int));
            }
            match dec_players_rest(s, i + 1 + n) {
                Some((mut ps, m)) => {
                    let ghost tail_views = ps@.map_values(|q: Player| q@);
                    ps.insert(0, p);
                    proof {
                        assert(ps@.map_values(|q: Player| q@) =~= seq![p@] + tail_views);
                    }
                    Some((ps, 1 + n + m))
                },
                None => None,
            }
        },
        None => None,
    }
}

/// Reads a roster starting at `i`, through the closing bracket.
fn dec_players(s: &[u8], i: usize) -> (r: Option<(Vec<Player>, usize)>)
    requires
        i <= s@.len(),
    ensures
        match r {
            Some(q) => parse_players(s@.skip(i as int)) == Some(
                (q.0@.map_values(|p: Player| p@), q.1 as int),
            ) && i + q.1 <= s@.len(),
            None => parse_players(s@.skip(i as int)) is None,
        },
{
    proof {
        lemma_slice_len_bound(s);
    }
    let ghost t = s@.skip(i as int);
    if i == s.len() {
        return None;
    }
    proof {
        assert(t[0] == s@[i as int]);
    }
    if s[i] == 93 {
        let ps: Vec<Player> = Vec::new();
        proof {
            assert(ps@.map_values(|p: Player| p@) =~= Seq::<PlayerV>::empty());
        }
        return Some((ps, 1));
    }
    match dec_player(s, i) {
        Some((p, n)) => {
            proof {
                assert(t.skip(n as int) =~= s@.skip(i as int + n as int));
            }
            match dec_players_rest(s, i + n) {
                Some((mut ps, m)) => {
                    let ghost tail_views = ps@.map_values(|q: Player| q@);
                    ps.insert(0, p);
                    proof {
                        assert(ps@.map_values(|q: Player| q@) =~= seq![p@] + tail_views);
                    }
                    Some((ps, n + m))
                },
                None => None,
            }
        },
        None => None,
    }
}

/// Reads a lobby snapshot starting at `i`.
#[verifier::spinoff_prover]
#[verifier::rlimit(100)]
fn dec_snapshot(s: &[u8], i: usize) -> (r: Option<(Lobby, usize)>)
    requires
        i <= s@.len(),
    ensures
        match r {
            Some(q) => parse_snapshot(s@.skip(i as int)) == Some((q.0@, q.1 as int)) && i + q.1
                <= s@.len(),
            None => parse_snapshot(s@.skip(i as int)) is None,
        },
{
    proof {
        lemma_slice_len_bound(s);
    }
    let ghost t = s@.skip(i as int);
    let l_id: &[u8] = &[123, 34, 105, 100, 34, 58];
    let l_players: &[u8] = &[44, 34, 112, 108, 97, 121, 101, 114, 115, 34, 58, 91];
    proof {
        assert(l_id@ =~= lt_id());
        assert(l_players@ =~= lt_players());
    }
    if !match_lit(s, i, l_id) {
        return None;
    }
    proof {
        assert(t.skip(6) =~= s@.skip(i as int + 6));
    }
    match dec_json_string(s, i + 6) {
        Some((id, n1)) => {
            let p1 = i + 6 + n1;
            proof {
                assert(t.skip(6 + n1 as int) =~= s@.skip(p1 as int));
            }
            if !match_lit(s, p1, l_players) {
                return None;
            }
            proof {
                assert(t.skip(6 + n1 as int + 12) =~= s@.skip(p1 as int + 12));
            }
            match dec_players(s, p1 + 12) {
                Some((ps, n2)) => {
                    let p2 = p1 + 12 + n2;
                    proof {
                        assert(t.len() == s@.len() - i);
                        if p2 < s.len() {
                            assert(t[6 + n1 as int + 12 + n2 as int] == s@[p2 as int]);
                        }
                    }
                    if p2 < s.len() && s[p2] == 125 {
                        let consumed = p2 + 1 - i;
                        Some((Lobby { id: id, players: ps }, consumed))
                    } else {
                        None
                    }
                },
                None => None,
            }
        },
        None => None,
    }
}

/// Reads a snapshot-carrying variant body starting at `p`.
fn dec_lobby_variant(s: &[u8], p: usize) -> (r: Option<Lobby>)
    requires
        p <= s@.len(),
    ensures
        match r {
            Some(l) => parse_lobby_variant(s@.skip(p as int)) == Some(l@),
            None => parse_lobby_variant(s@.skip(p as int)) is None,
        },
{
    proof {
        lemma_slice_len_bound(s);
    }
    let ghost t = s@.skip(p as int);
    let l_lobby: &[u8] = &[44, 34, 108, 111, 98, 98, 121, 34, 58];
    proof {
        assert(l_lobby@ =~= lt_lobby());
    }
    if !match_lit(s, p, l_lobby) {
        return None;
    }
    proof {
        assert(t.skip(9) =~= s@.skip(p as int + 9));
    }
    match dec_snapshot(s, p + 9) {
        Some((l, n)) => {
            let q = p + 9 + n;
            proof {
                assert(t.len() == s@.len() - p);
                if q < s.len() {
                    assert(t[9 + n as int] == s@[q as int]);
                }
            }
            if q < s.len() && s[q] == 125 && q + 1 == s.len() {
                Some(l)
            } else {
                None
            }
        },
        None => None,
    }
}

/// Decode one wire message: `Some` exactly on the strings `encode` produces.
#[verifier::spinoff_prover]
#[verifier::rlimit(100)]
pub fn decode(s: &[u8]) -> (r: Option<Message>)
    ensures
        match r {
            Some(m) => parse_msg(s@) == Some(m@) && s@ == enc_message(m@),
            None => parse_msg(s@) is None && forall|v: MessageV| s@ != #[trigger] enc_message(v),
        },
{
    proof {
        lemma_msg_sound(s@);
        assert forall|v: MessageV| parse_msg(s@) is None implies s@ != #[trigger] enc_message(
            v,
        ) by {
            lemma_msg_roundtrip(v);
        }
    }
    decode_raw(s)
}

/// The parser proper: tries the tag and hands the rest to the matching
/// variant reader.
#[verifier::spinoff_prover]
#[verifier::rlimit(100)]
fn decode_raw(s: &[u8]) -> (r: Option<Message>)
    ensures
        match r {
            Some(m) => parse_msg(s@) == Some(m@),
            None => parse_msg(s@) is None,
        },
{
    proof {
        lemma_slice_len_bound(s);
    }
    let l_open: &[u8] = &[123, 34, 116, 121, 112, 101, 34, 58];
    let l_name: &[u8] = &[44, 34, 110, 97, 109, 101, 34, 58];
    let l_code: &[u8] = &[44, 34, 108, 111, 98, 98, 121, 95, 99, 111, 100, 101, 34, 58];
    let l_body: &[u8] = &[44, 34, 98, 111, 100, 121, 34, 58];
    let l_msg: &[u8] = &[44, 34, 109, 101, 115, 115, 97, 103, 101, 34, 58];
    let t_create: &[u8] = &[108, 111, 98, 98, 121, 95, 97, 99, 116, 105, 111, 110, 95, 99, 114,
        101, 97, 116, 101];
    let t_create_resp: &[u8] = &[108, 111, 98, 98, 121, 95, 97, 99, 116, 105, 111, 110, 95, 99,
        114, 101, 97, 116, 101, 95, 114, 101, 115, 112, 111, 110, 115, 101];
    let t_join: &[u8] = &[108, 111, 98, 98, 121, 95, 97, 99, 116, 105, 111, 110, 95, 106, 111,
        105, 110];
    let t_join_resp: &[u8] = &[108, 111, 98, 98, 121, 95, 97, 99, 116, 105, 111, 110, 95, 106,
        111, 105, 110, 95, 114, 101, 115, 112, 111, 110, 115, 101];
    let t_chat: &[u8] = &[108, 111, 98, 98, 121, 95, 109, 101, 115, 115, 97, 103, 101];
    let t_chat_resp: &[u8] = &[108, 111, 98, 98, 121, 95, 109, 101, 115, 115, 97, 103, 101, 95,
        114, 101, 115, 112, 111, 110, 115, 101];
    let t_error_resp: &[u8] = &[108, 111, 98, 98, 121, 95, 101, 114, 114, 111, 114, 95, 114, 101,
        115, 112, 111, 110, 115, 101];
    proof {
        assert(l_open@ =~= lt_open());
        assert(l_name@ =~= lt_name());
        assert(l_code@ =~= lt_lobby_code());
        assert(l_body@ =~= lt_body());
        assert(l_msg@ =~= lt_message());
        assert(t_create@ =~= tag_create());
        assert(t_create_resp@ =~= tag_create_response());
        assert(t_join@ =~= tag_join());
        assert(t_join_resp@ =~= tag_join_response());
        assert(t_chat@ =~= tag_chat());
        assert(t_chat_resp@ =~= tag_chat_response());
        assert(t_error_resp@ =~= tag_error_response());
        assert(s@.skip(0) =~= s@);
    }
    if !match_lit(s, 0, l_open) {
        return None;
    }
    proof {
        assert(s@.take(8) =~= s@.skip(0).take(8));
    }
    match dec_json_string(s, 8) {
        Some((tag, n)) => {
            let p = 8 + n;
            if eq_slices(tag.as_slice(), t_create) {
                match dec_one_string(s, p, l_name) {
                    Some(name) => Some(Message::LobbyActionCreate(LobbyActionCreate { name })),
                    None => None,
                }
            } else if eq_slices(tag.as_slice(), t_create_resp) {
                match dec_lobby_variant(s, p) {
                    Some(lobby) => Some(
                        Message::LobbyActionCreateResponse(LobbyActionCreateResponse { lobby }),
                    ),
                    None => None,
                }
            } else if eq_slices(tag.as_slice(), t_join) {
                match dec_two_strings(s, p, l_name, l_code) {
                    Some((name, lobby_code)) => Some(
                        Message::LobbyActionJoin(LobbyActionJoin { name, lobby_code }),
                    ),
                    None => None,
                }
            } else if eq_slices(tag.as_slice(), t_join_resp) {
                match dec_lobby_variant(s, p) {
                    Some(lobby) => Some(
                        Message::LobbyActionJoinResponse(LobbyActionJoinResponse { lobby }),
                    ),
                    None => None,
                }
            } else if eq_slices(tag.as_slice(), t_chat) {
                match dec_two_strings(s, p, l_code, l_body) {
                    Some((lobby_code, body)) => Some(
                        Message::LobbyMessage(LobbyMessage { lobby_code, body }),
                    ),
                    None => None,
                }
            } else if eq_slices(tag.as_slice(), t_chat_resp) {
                match dec_two_strings(s, p, l_name, l_body) {
                    Some((name, body)) => Some(
                        Message::LobbyMessageResponse(LobbyMessageResponse { name, body }),
                    ),
                    None => None,
                }
            } else if eq_slices(tag.as_slice(), t_error_resp) {
                match dec_one_string(s, p, l_msg) {
                    Some(message) => Some(
                        Message::LobbyErrorResponse(LobbyErrorResponse { message }),
                    ),
                    None => None,
                }
            } else {
                None
            }
        },
        None => None,
    }
}

} // verus!
