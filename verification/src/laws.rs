use vstd::prelude::*;

use crate::hexcodec::hex_encode_seq;
use crate::hexcodec::lemma_hex_round_trip;
use crate::modhex::demodhex_seq;
use crate::text::dec_body;
use crate::text::dec_string_of;
use crate::text::is_dec_digit;
use crate::text::lemma_dec_string_of;
use crate::text::lemma_split_colon_field;
use crate::text::lemma_split_colon_whole;
use crate::text::lemma_trim_id;
use crate::text::split_colon;
use crate::text::trim_spec;
use crate::yubikey::aes128_decrypt;
use crate::yubikey::candidate_accepts;
use crate::yubikey::candidate_selected;
use crate::yubikey::counter_newer;
use crate::yubikey::counters_updated;
use crate::yubikey::field_or_zero;
use crate::yubikey::good_lines;
use crate::yubikey::le16;
use crate::yubikey::line_good;
use crate::yubikey::line_ok;
use crate::yubikey::line_skip;
use crate::yubikey::lines_all_ok;
use crate::yubikey::record_line;
use crate::yubikey::record_matches_line;
use crate::yubikey::Yubikey;

verus! {

/// A record that is not selected - its public id differs from the OTP's
/// prefix, or its account differs from the claimed username - never accepts
/// the OTP, so an unknown public id or username is always "no match".
pub proof fn lemma_unselected_rejects(k: Yubikey, t: Seq<char>, username: Seq<char>)
    requires
        !candidate_selected(k, t.subrange(0, 12), username),
    ensures
        !candidate_accepts(k, t, username),
{
}

/// Replay rejection: once an accepted OTP has updated the counters of the
/// one record selected for it, no record of the updated store accepts the
/// same OTP again.
pub proof fn lemma_replay_rejected(
    keys: Seq<Yubikey>,
    keys2: Seq<Yubikey>,
    t: Seq<char>,
    username: Seq<char>,
    j: int,
)
    requires
        0 <= j < keys.len(),
        candidate_accepts(keys[j], t, username),
        forall|i: int|
            0 <= i < keys.len() && i != j ==> !candidate_selected(
                #[trigger] keys[i],
                t.subrange(0, 12),
                username,
            ),
        keys2.len() == keys.len(),
        forall|i: int| 0 <= i < keys.len() && i != j ==> keys2[i] == keys[i],
        counters_updated(
            keys2[j],
            keys[j],
            aes128_decrypt(keys[j].encryption_key@, demodhex_seq(t.subrange(12, 44))),
        ),
    ensures
        forall|i: int| 0 <= i < keys2.len() ==> !candidate_accepts(#[trigger] keys2[i], t, username),
{
    let block = aes128_decrypt(keys[j].encryption_key@, demodhex_seq(t.subrange(12, 44)));
    assert forall|i: int| 0 <= i < keys2.len() implies !candidate_accepts(
        #[trigger] keys2[i],
        t,
        username,
    ) by {
        if i == j {
            assert(keys2[j].encryption_key@ == keys[j].encryption_key@);
            assert(!counter_newer(
                le16(block, 6),
                block[11],
                keys2[j].last_usage_count,
                keys2[j].last_session_count,
            ));
        } else {
            lemma_unselected_rejects(keys2[i], t, username);
        }
    }
}

/// Acceptance is owed: where any record accepts the OTP - in particular one
/// freshly encrypted with a usage counter strictly above the stored one -
/// there is a first accepting record, so the engine's success clause
/// applies: validation returns the decoded OTP and updates that record's
/// counters.
pub proof fn lemma_first_acceptor(
    keys: Seq<Yubikey>,
    t: Seq<char>,
    username: Seq<char>,
    i: int,
) -> (j: int)
    requires
        0 <= i < keys.len(),
        candidate_accepts(keys[i], t, username),
    ensures
        0 <= j <= i,
        candidate_accepts(keys[j], t, username),
        forall|k: int| 0 <= k < j ==> !candidate_accepts(#[trigger] keys[k], t, username),
    decreases i,
{
    if exists|k: int| 0 <= k < i && candidate_accepts(#[trigger] keys[k], t, username) {
        let k = choose|k: int| 0 <= k < i && candidate_accepts(#[trigger] keys[k], t, username);
        lemma_first_acceptor(keys, t, username, k)
    } else {
        i
    }
}

/// A text free of colons.
pub open spec fn colon_free(s: Seq<char>) -> bool {
    forall|i: int| 0 <= i < s.len() ==> s[i] != ':'
}

/// One line of the round trip: the line written for a well-formed record
/// whose username and public id are free of colons parses back as a record,
/// and any record read from that line carries byte-identical secrets and
/// the exact counters that were written.
pub proof fn lemma_record_round_trip(k: Yubikey)
    requires
        k.wf(),
        colon_free(k.local_username@),
        colon_free(k.public_id@),
    ensures
        line_good(record_line(k)),
        !line_skip(record_line(k)),
        forall|k2: Yubikey|
            record_matches_line(k2, record_line(k)) ==> (k2.local_username@
                == k.local_username@ && k2.public_id@ == k.public_id@ && k2.private_id@
                == k.private_id@ && k2.encryption_key@ == k.encryption_key@
                && k2.last_usage_count == k.last_usage_count && k2.last_session_count
                == k.last_session_count),
{
    let u = k.local_username@;
    let p = k.public_id@;
    let h1 = hex_encode_seq(k.private_id@);
    let h2 = hex_encode_seq(k.encryption_key@);
    let d1 = dec_string_of(k.last_usage_count as nat);
    let d2 = dec_string_of(k.last_session_count as nat);
    lemma_hex_round_trip(k.private_id@);
    lemma_hex_round_trip(k.encryption_key@);
    lemma_dec_string_of(k.last_usage_count as nat);
    lemma_dec_string_of(k.last_session_count as nat);
    assert forall|i: int| 0 <= i < d1.len() implies d1[i] != ':' && !crate::text::is_space(
        d1[i],
    ) by {
        assert(is_dec_digit(d1[i]));
    }
    assert forall|i: int| 0 <= i < d2.len() implies d2[i] != ':' && !crate::text::is_space(
        d2[i],
    ) by {
        assert(is_dec_digit(d2[i]));
    }
    let rest4 = d1 + seq![':'] + d2;
    let rest3 = h2 + seq![':'] + rest4;
    let rest2 = h1 + seq![':'] + rest3;
    let rest1 = p + seq![':'] + rest2;
    let line = record_line(k);
    assert(line =~= u + seq![':'] + rest1);
    lemma_split_colon_whole(d2);
    lemma_split_colon_field(d1, d2);
    lemma_split_colon_field(h2, rest4);
    lemma_split_colon_field(h1, rest3);
    lemma_split_colon_field(p, rest2);
    lemma_split_colon_field(u, rest1);
    let f = split_colon(line);
    assert(f =~~= seq![u] + (seq![p] + (seq![h1] + (seq![h2] + (seq![d1] + seq![d2])))));
    assert(f.len() == 6);
    assert(f[0] == u);
    assert(f[1] == p);
    assert(f[2] == h1);
    assert(f[3] == h2);
    assert(f[4] == d1);
    assert(f[5] == d2);
    assert(field_or_zero(f, 4) == d1);
    assert(field_or_zero(f, 5) == d2);
    lemma_trim_id(h1);
    lemma_trim_id(h2);
    assert(trim_spec(f[2]) == h1);
    assert(trim_spec(f[3]) == h2);
    assert(dec_body(d1) == d1);
    assert(dec_body(d2) == d2);
    assert(line_good(line));
}

/// Lines of which none is skipped read back as themselves.
pub proof fn lemma_good_lines_id(lines: Seq<Seq<char>>)
    requires
        forall|i: int| 0 <= i < lines.len() ==> !line_skip(#[trigger] lines[i]),
    ensures
        good_lines(lines) =~~= lines,
    decreases lines.len(),
{
    if lines.len() > 0 {
        lemma_good_lines_id(lines.skip(1));
        assert(seq![lines[0]] + lines.skip(1) =~= lines);
    }
}

/// The whole round trip of the store file: every line written for a
/// well-formed store parses, none is skipped, and the records read back
/// carry the same usernames, public ids, byte-identical secrets and the
/// exact counters that were written.
pub proof fn lemma_store_round_trip(keys: Seq<Yubikey>, lines: Seq<Seq<char>>)
    requires
        lines.len() == keys.len(),
        forall|i: int| 0 <= i < keys.len() ==> lines[i] == record_line(#[trigger] keys[i]),
        forall|i: int| 0 <= i < keys.len() ==> (#[trigger] keys[i]).wf() && colon_free(
            keys[i].local_username@,
        ) && colon_free(keys[i].public_id@),
    ensures
        lines_all_ok(lines),
        good_lines(lines) =~~= lines,
        forall|i: int, k2: Yubikey|
            0 <= i < keys.len() && #[trigger] record_matches_line(k2, lines[i]) ==> (
            k2.local_username@ == keys[i].local_username@ && k2.public_id@ == keys[i].public_id@
                && k2.private_id@ == keys[i].private_id@ && k2.encryption_key@
                == keys[i].encryption_key@ && k2.last_usage_count == keys[i].last_usage_count
                && k2.last_session_count == keys[i].last_session_count),
{
    assert forall|i: int| 0 <= i < lines.len() implies line_ok(#[trigger] lines[i]) && !line_skip(
        lines[i],
    ) by {
        lemma_record_round_trip(keys[i]);
    }
    lemma_good_lines_id(lines);
    assert forall|i: int, k2: Yubikey|
        0 <= i < keys.len() && #[trigger] record_matches_line(k2, lines[i]) implies (
    k2.local_username@ == keys[i].local_username@ && k2.public_id@ == keys[i].public_id@
        && k2.private_id@ == keys[i].private_id@ && k2.encryption_key@
        == keys[i].encryption_key@ && k2.last_usage_count == keys[i].last_usage_count
        && k2.last_session_count == keys[i].last_session_count) by {
        lemma_record_round_trip(keys[i]);
    }
}

} // verus!
