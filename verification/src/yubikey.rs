use vstd::prelude::*;
use vstd::slice::slice_to_vec;
use vstd::string::StrSliceExecFns;
use vstd::string::StringExecFns;

use aes::Aes128;
use aes::cipher::BlockCipherDecrypt;
use aes::cipher::KeyInit;

use crate::crc::crc_residue_ok;
use crate::crc::verify_crc;
use crate::errors::YkError;
use crate::hexcodec::hex_decode;
use crate::hexcodec::hex_decode_seq;
use crate::hexcodec::is_hex;
use crate::hexcodec::hex_encode;
use crate::modhex::demodhex;
use crate::modhex::demodhex_seq;
use crate::modhex::is_modhex;
use crate::hexcodec::hex_encode_seq;
use crate::text::dec_body;
use crate::text::dec_format_ok;
use crate::text::dec_string_of;
use crate::text::dec_value;
use crate::text::parse_dec_bounded;
use crate::text::split_colon;
use crate::text::split_colon_str;
use crate::text::trim;
use crate::text::trim_spec;
use crate::text::u32_to_dec;

verus! {

/// The secret six bytes a token embeds in every OTP, used to confirm that
/// decryption ran with the right key.
#[derive(Debug)]
pub struct YubikeyPrivateIdentity {
    pub bytes: Vec<u8>,
}

impl View for YubikeyPrivateIdentity {
    type V = Seq<u8>;

    open spec fn view(&self) -> Seq<u8> {
        self.bytes@
    }
}

impl YubikeyPrivateIdentity {
    pub open spec fn wf(&self) -> bool {
        self@.len() == 6
    }

    /// Reads the identity from twelve hexadecimal digits, surrounding
    /// whitespace ignored.
    pub fn from_str(hex_key: &str) -> (r: Result<YubikeyPrivateIdentity, YkError>)
        ensures
            r is Ok <==> is_hex(trim_spec(hex_key@)) && hex_decode_seq(trim_spec(hex_key@)).len()
                == 6,
            r matches Ok(p) ==> p@ == hex_decode_seq(trim_spec(hex_key@)) && p.wf(),
            r matches Err(e) ==> e == YkError::FormatError,
    {
        let t: &str = trim(hex_key);
        match hex_decode(t) {
            Some(bytes) => YubikeyPrivateIdentity::from_bytes(bytes.as_slice()),
            None => Err(YkError::FormatError),
        }
    }

    /// Takes the identity from exactly six raw bytes.
    pub fn from_bytes(bytes: &[u8]) -> (r: Result<YubikeyPrivateIdentity, YkError>)
        ensures
            r is Ok <==> bytes@.len() == 6,
            r matches Ok(p) ==> p@ == bytes@ && p.wf(),
            r matches Err(e) ==> e == YkError::FormatError,
    {
        if bytes.len() == 6 {
            Ok(YubikeyPrivateIdentity { bytes: slice_to_vec(bytes) })
        } else {
            Err(YkError::FormatError)
        }
    }
}

/// The 128-bit symmetric key a token's OTPs are encrypted under.
#[derive(Debug)]
pub struct YubikeyAesKey {
    pub bytes: Vec<u8>,
}

impl View for YubikeyAesKey {
    type V = Seq<u8>;

    open spec fn view(&self) -> Seq<u8> {
        self.bytes@
    }
}

impl YubikeyAesKey {
    pub open spec fn wf(&self) -> bool {
        self@.len() == 16
    }

    /// Reads the key from 32 hexadecimal digits, surrounding whitespace
    /// ignored.
    pub fn from_str(hex_key: &str) -> (r: Result<YubikeyAesKey, YkError>)
        ensures
            r is Ok <==> is_hex(trim_spec(hex_key@)) && hex_decode_seq(trim_spec(hex_key@)).len()
                == 16,
            r matches Ok(k) ==> k@ == hex_decode_seq(trim_spec(hex_key@)) && k.wf(),
            r matches Err(e) ==> e == YkError::FormatError,
    {
        let t: &str = trim(hex_key);
        match hex_decode(t) {
            Some(bytes) => {
                if bytes.len() == 16 {
                    Ok(YubikeyAesKey { bytes })
                } else {
                    Err(YkError::FormatError)
                }
            },
            None => Err(YkError::FormatError),
        }
    }
}

/// The plaintext that AES-128 decryption of `block` under `key` yields.
/// It is a function of the key and the ciphertext alone.
pub uninterp spec fn aes128_decrypt(key: Seq<u8>, block: Seq<u8>) -> Seq<u8>;

/// Relies on aes::Aes128 (KeyInit::new_from_slice and
/// BlockCipherDecrypt::decrypt_block): decrypts one 16-byte block in place
/// under a 16-byte key; the result depends on key and block alone and is
/// again 16 bytes.
#[verifier::external_body]
fn aes128_decrypt_block(key: &[u8], block: &[u8]) -> (r: Vec<u8>)
    requires
        key@.len() == 16,
        block@.len() == 16,
    ensures
        r@ == aes128_decrypt(key@, block@),
        r@.len() == 16,
{
    let cipher = Aes128::new_from_slice(key).expect("16-byte key");
    let mut b = aes::Block::try_from(block).expect("16-byte block");
    cipher.decrypt_block(&mut b);
    b.as_slice().to_vec()
}

/// Decrypts the fixed block of 16 bytes under the given key and runs the
/// checksum over the plaintext. Fails exactly when the ciphertext is not 16
/// bytes long or the checksum leaves the wrong residual.
pub fn decrypt_bytes(encrypted_bytes: Vec<u8>, key: &YubikeyAesKey) -> (r: Result<Vec<u8>, YkError>)
    requires
        key.wf(),
    ensures
        r is Ok <==> encrypted_bytes@.len() == 16 && crc_residue_ok(
            aes128_decrypt(key@, encrypted_bytes@),
        ),
        r matches Ok(v) ==> v@ == aes128_decrypt(key@, encrypted_bytes@) && v@.len() == 16,
        r matches Err(e) ==> e == YkError::CryptoError,
{
    if encrypted_bytes.len() != 16 {
        return Err(YkError::CryptoError);
    }
    let bytes: Vec<u8> = aes128_decrypt_block(key.bytes.as_slice(), encrypted_bytes.as_slice());
    proof {
        assert(bytes@.take(16) =~= bytes@);
    }
    if !verify_crc(bytes.as_slice()) {
        return Err(YkError::CryptoError);
    }
    Ok(bytes)
}

/// The 16-bit little-endian value at offset `i` of a block.
pub open spec fn le16(b: Seq<u8>, i: int) -> u16 {
    (b[i] as int + 256 * (b[i + 1] as int)) as u16
}

/// How the fields of a parsed OTP record relate to the public-id prefix and
/// the decrypted block they were read from.
pub open spec fn otp_fields_ok(o: YubikeyOtp, public_id: Seq<char>, block: Seq<u8>) -> bool {
    &&& o.public_id@ == public_id
    &&& o.private_id@ == block.subrange(0, 6)
    &&& o.counter == le16(block, 6)
    &&& o.timestamp@ == block.subrange(8, 11)
    &&& o.session_counter == block[11]
    &&& o.random == le16(block, 12)
    &&& o.crc == le16(block, 14)
}

/// One decrypted, validated OTP: the public-id prefix carried over from the
/// token text, and the fields of the 16-byte plaintext record.
#[derive(Debug)]
pub struct YubikeyOtp {
    pub public_id: String,
    pub private_id: YubikeyPrivateIdentity,
    pub counter: u16,
    pub timestamp: Vec<u8>,
    pub session_counter: u8,
    pub random: u16,
    pub crc: u16,
}

impl YubikeyOtp {
    /// Reads the fixed binary layout of a decrypted block: bytes 0-5 the
    /// private id, 6-7 the usage counter (little endian), 8-10 the
    /// timestamp, 11 the session counter, 12-13 the random field, 14-15 the
    /// checksum field. Pure structural decoding; always succeeds on a
    /// 16-byte block.
    pub fn from_bytes(public_id: &str, bytes: &[u8]) -> (r: Result<YubikeyOtp, YkError>)
        requires
            bytes@.len() == 16,
        ensures
            r matches Ok(o) && otp_fields_ok(o, public_id@, bytes@),
    {
        let private_id: YubikeyPrivateIdentity = YubikeyPrivateIdentity::from_bytes(
            &bytes[0..6],
        ).unwrap();
        let mut timestamp: Vec<u8> = Vec::new();
        timestamp.push(bytes[8]);
        timestamp.push(bytes[9]);
        timestamp.push(bytes[10]);
        proof {
            assert(timestamp@ =~= bytes@.subrange(8, 11));
        }
        Ok(YubikeyOtp {
            public_id: String::from_str(public_id),
            private_id,
            counter: bytes[6] as u16 + (bytes[7] as u16) * 256,
            timestamp,
            session_counter: bytes[11],
            random: bytes[12] as u16 + (bytes[13] as u16) * 256,
            crc: bytes[14] as u16 + (bytes[15] as u16) * 256,
        })
    }
}

/// One provisioned token, bound to one local account.
#[derive(Debug)]
pub struct Yubikey {
    pub local_username: String,
    pub public_id: String,
    pub private_id: YubikeyPrivateIdentity,
    pub encryption_key: YubikeyAesKey,
    pub last_usage_count: u16,
    pub last_session_count: u8,
}

impl Yubikey {
    pub open spec fn wf(&self) -> bool {
        &&& self.private_id.wf()
        &&& self.encryption_key.wf()
    }
}

/// Compares two byte strings.
pub fn bytes_equal(a: &[u8], b: &[u8]) -> (r: bool)
    ensures
        r == (a@ == b@),
{
    if a.len() != b.len() {
        return false;
    }
    let n: usize = a.len();
    let mut i: usize = 0;
    while i < n
        invariant
            i <= n,
            n == a@.len(),
            n == b@.len(),
            forall|k: int| 0 <= k < i ==> a@[k] == b@[k],
        decreases n - i,
    {
        if a[i] != b[i] {
            return false;
        }
        i += 1;
    }
    proof {
        assert(a@ =~= b@);
    }
    true
}

/// A text `str::parse::<u16>` would take, with a value in range.
pub open spec fn parses_u16(s: Seq<char>) -> bool {
    dec_format_ok(s) && dec_value(dec_body(s)) <= 0xffff
}

/// A text `str::parse::<u8>` would take, with a value in range.
pub open spec fn parses_u8(s: Seq<char>) -> bool {
    dec_format_ok(s) && dec_value(dec_body(s)) <= 0xff
}

/// Reads a usage counter as `str::parse::<u16>` does.
pub fn parse_u16(s: &str) -> (r: Result<u16, YkError>)
    ensures
        r is Ok <==> parses_u16(s@),
        r matches Ok(v) ==> v as int == dec_value(dec_body(s@)),
        r matches Err(e) ==> e == YkError::FormatError,
{
    match parse_dec_bounded(s, 0xffff) {
        Ok(v) => Ok(v as u16),
        Err(e) => Err(e),
    }
}

/// Reads a session counter as `str::parse::<u8>` does.
pub fn parse_u8(s: &str) -> (r: Result<u8, YkError>)
    ensures
        r is Ok <==> parses_u8(s@),
        r matches Ok(v) ==> v as int == dec_value(dec_body(s@)),
        r matches Err(e) ==> e == YkError::FormatError,
{
    match parse_dec_bounded(s, 0xff) {
        Ok(v) => Ok(v as u8),
        Err(e) => Err(e),
    }
}

/// Field `i` of a split line, or the default `"0"` where the line is too
/// short (the two counter fields may be absent).
pub open spec fn field_or_zero(f: Seq<Seq<char>>, i: int) -> Seq<char> {
    if i < f.len() {
        f[i]
    } else {
        seq!['0']
    }
}

/// A line with fewer than four colon-separated fields, ignored on read.
pub open spec fn line_skip(line: Seq<char>) -> bool {
    split_colon(line).len() < 4
}

/// A line that yields a credential record: at least four fields, six bytes
/// of private-id hex, sixteen bytes of key hex, counters in range.
pub open spec fn line_good(line: Seq<char>) -> bool {
    let f = split_colon(line);
    &&& f.len() >= 4
    &&& is_hex(trim_spec(f[2])) && hex_decode_seq(trim_spec(f[2])).len() == 6
    &&& is_hex(trim_spec(f[3])) && hex_decode_seq(trim_spec(f[3])).len() == 16
    &&& parses_u16(field_or_zero(f, 4))
    &&& parses_u8(field_or_zero(f, 5))
}

/// A line the reader gets past: either skipped or a record. Any other line
/// aborts the whole read.
pub open spec fn line_ok(line: Seq<char>) -> bool {
    line_skip(line) || line_good(line)
}

/// The record a good line denotes.
pub open spec fn record_matches_line(k: Yubikey, line: Seq<char>) -> bool {
    let f = split_colon(line);
    &&& k.local_username@ == f[0]
    &&& k.public_id@ == f[1]
    &&& k.private_id@ == hex_decode_seq(trim_spec(f[2]))
    &&& k.encryption_key@ == hex_decode_seq(trim_spec(f[3]))
    &&& k.last_usage_count as int == dec_value(dec_body(field_or_zero(f, 4)))
    &&& k.last_session_count as int == dec_value(dec_body(field_or_zero(f, 5)))
}

/// Reads one store line. A short line is skipped; a malformed hex or
/// counter field on a long-enough line fails the whole read.
pub fn parse_line(line: &str) -> (r: Result<Option<Yubikey>, YkError>)
    ensures
        r is Ok <==> line_ok(line@),
        line_skip(line@) ==> (r matches Ok(o) && o is None),
        line_good(line@) ==> (r matches Ok(o) && o matches Some(k) && record_matches_line(k, line@)
            && k.wf()),
        r matches Err(e) ==> e == YkError::FormatError,
{
    let fields: Vec<String> = split_colon_str(line);
    if fields.len() < 4 {
        return Ok(None);
    }
    let private_id: YubikeyPrivateIdentity = match YubikeyPrivateIdentity::from_str(
        fields[2].as_str(),
    ) {
        Ok(p) => p,
        Err(e) => return Err(e),
    };
    let encryption_key: YubikeyAesKey = match YubikeyAesKey::from_str(fields[3].as_str()) {
        Ok(k) => k,
        Err(e) => return Err(e),
    };
    let last_usage_count: u16 = if fields.len() > 4 {
        match parse_u16(fields[4].as_str()) {
            Ok(v) => v,
            Err(e) => return Err(e),
        }
    } else {
        proof {
            reveal_strlit("0");
            assert("0"@ =~= seq!['0']);
        }
        match parse_u16("0") {
            Ok(v) => v,
            Err(e) => return Err(e),
        }
    };
    let last_session_count: u8 = if fields.len() > 5 {
        match parse_u8(fields[5].as_str()) {
            Ok(v) => v,
            Err(e) => return Err(e),
        }
    } else {
        proof {
            reveal_strlit("0");
            assert("0"@ =~= seq!['0']);
        }
        match parse_u8("0") {
            Ok(v) => v,
            Err(e) => return Err(e),
        }
    };
    let local_username: String = fields[0].clone();
    let public_id: String = fields[1].clone();
    Ok(Some(Yubikey {
        local_username,
        public_id,
        private_id,
        encryption_key,
        last_usage_count,
        last_session_count,
    }))
}

/// The lines of a list that yield records, in order.
pub open spec fn good_lines(lines: Seq<Seq<char>>) -> Seq<Seq<char>>
    decreases lines.len(),
{
    if lines.len() == 0 {
        Seq::empty()
    } else {
        let rest = good_lines(lines.skip(1));
        if line_skip(lines[0]) {
            rest
        } else {
            seq![lines[0]] + rest
        }
    }
}

pub open spec fn lines_all_ok(lines: Seq<Seq<char>>) -> bool {
    forall|i: int| 0 <= i < lines.len() ==> line_ok(#[trigger] lines[i])
}

pub proof fn lemma_good_lines_snoc(lines: Seq<Seq<char>>, x: Seq<char>)
    ensures
        good_lines(lines.push(x)) =~~= good_lines(lines) + (if line_skip(x) {
            Seq::<Seq<char>>::empty()
        } else {
            seq![x]
        }),
    decreases lines.len(),
{
    let p = lines.push(x);
    let tail = if line_skip(x) {
        Seq::<Seq<char>>::empty()
    } else {
        seq![x]
    };
    if lines.len() == 0 {
        assert(p[0] == x);
        assert(p.skip(1) =~= Seq::<Seq<char>>::empty());
        assert(good_lines(p.skip(1)) =~= Seq::<Seq<char>>::empty());
        assert(good_lines(p) =~~= good_lines(lines) + tail);
    } else {
        assert(p[0] == lines[0]);
        assert(p.skip(1) =~= lines.skip(1).push(x));
        lemma_good_lines_snoc(lines.skip(1), x);
        let rest = good_lines(lines.skip(1));
        assert(good_lines(p.skip(1)) =~~= rest + tail);
        if line_skip(lines[0]) {
            assert(good_lines(p) =~~= good_lines(lines) + tail);
        } else {
            assert(good_lines(p) == seq![p[0]] + good_lines(p.skip(1)));
            assert(good_lines(lines) == seq![lines[0]] + rest);
            assert(seq![lines[0]] + good_lines(p.skip(1)) =~~= (seq![lines[0]] + rest) + tail);
        }
    }
}

/// The in-memory credential store: the path of its backing file and the
/// records read from it, in file order. The caller opens, locks, reads and
/// rewrites the file; the store only interprets and produces its lines.
#[derive(Debug)]
pub struct YubikeyStore {
    pub filename: String,
    pub keys: Vec<Yubikey>,
}

impl YubikeyStore {
    pub open spec fn wf(&self) -> bool {
        forall|i: int| 0 <= i < self.keys@.len() ==> (#[trigger] self.keys@[i]).wf()
    }

    /// Reads store lines, appending one record per good line, skipping
    /// short lines, and aborting on the first malformed line. On an abort
    /// the store is left as it was.
    pub fn read(&mut self, lines: &Vec<String>) -> (r: Result<(), YkError>)
        requires
            old(self).wf(),
        ensures
            final(self).wf(),
            r is Ok <==> lines_all_ok(lines.deep_view()),
            r matches Err(e) ==> e == YkError::FormatError && *final(self) == *old(self),
            r is Ok ==> {
                let gl = good_lines(lines.deep_view());
                &&& final(self).filename == old(self).filename
                &&& final(self).keys@.len() == old(self).keys@.len() + gl.len()
                &&& forall|i: int|
                    0 <= i < old(self).keys@.len() ==> final(self).keys@[i] == old(self).keys@[i]
                &&& forall|j: int|
                    0 <= j < gl.len() ==> record_matches_line(
                        #[trigger] final(self).keys@[old(self).keys@.len() + j],
                        gl[j],
                    )
            },
    {
        let ghost ldv = lines.deep_view();
        let mut new_keys: Vec<Yubikey> = Vec::new();
        let n: usize = lines.len();
        let mut i: usize = 0;
        proof {
            assert(ldv.take(0) =~= Seq::<Seq<char>>::empty());
        }
        while i < n
            invariant
                i <= n,
                n == lines@.len(),
                ldv == lines.deep_view(),
                *self == *old(self),
                self.wf(),
                forall|k: int| 0 <= k < i ==> line_ok(#[trigger] ldv[k]),
                new_keys@.len() == good_lines(ldv.take(i as int)).len(),
                forall|j: int|
                    0 <= j < new_keys@.len() ==> record_matches_line(
                        #[trigger] new_keys@[j],
                        good_lines(ldv.take(i as int))[j],
                    ) && new_keys@[j].wf(),
            decreases n - i,
        {
            proof {
                assert(ldv[i as int] == lines@[i as int]@);
            }
            match parse_line(lines[i].as_str()) {
                Err(e) => {
                    proof {
                        assert(!line_ok(ldv[i as int]));
                    }
                    return Err(e);
                },
                Ok(None) => {
                    proof {
                        lemma_good_lines_snoc(ldv.take(i as int), ldv[i as int]);
                        assert(ldv.take(i as int).push(ldv[i as int]) =~= ldv.take(i + 1));
                    }
                },
                Ok(Some(k)) => {
                    proof {
                        lemma_good_lines_snoc(ldv.take(i as int), ldv[i as int]);
                        assert(ldv.take(i as int).push(ldv[i as int]) =~= ldv.take(i + 1));
                        assert(good_lines(ldv.take(i + 1)) =~~= good_lines(ldv.take(i as int))
                            + seq![ldv[i as int]]);
                    }
                    new_keys.push(k);
                },
            }
            i += 1;
        }
        proof {
            assert(ldv.take(n as int) =~= ldv);
        }
        self.keys.append(&mut new_keys);
        Ok(())
    }
}

/// The line a record is written as:
/// `username:public_id:private_id_hex:shared_key_hex:counter:session`.
pub open spec fn record_line(k: Yubikey) -> Seq<char> {
    k.local_username@ + seq![':'] + k.public_id@ + seq![':'] + hex_encode_seq(k.private_id@)
        + seq![':'] + hex_encode_seq(k.encryption_key@) + seq![':'] + dec_string_of(
        k.last_usage_count as nat,
    ) + seq![':'] + dec_string_of(k.last_session_count as nat)
}

impl YubikeyStore {
    /// Serializes every record as one line, in store order. The caller
    /// writes these lines to a fresh temporary file and atomically renames
    /// it over the store path, so the file is never left half-written.
    pub fn to_lines(&self) -> (r: Vec<String>)
        requires
            self.wf(),
        ensures
            r@.len() == self.keys@.len(),
            forall|i: int| 0 <= i < r@.len() ==> r.deep_view()[i] == record_line(self.keys@[i]),
    {
        let mut lines: Vec<String> = Vec::new();
        let n: usize = self.keys.len();
        let mut i: usize = 0;
        while i < n
            invariant
                i <= n,
                n == self.keys@.len(),
                self.wf(),
                lines@.len() == i,
                forall|j: int|
                    0 <= j < i ==> lines.deep_view()[j] == record_line(#[trigger] self.keys@[j]),
            decreases n - i,
        {
            let k = &self.keys[i];
            let mut line: String = k.local_username.clone();
            let colon: &str = ":";
            proof {
                reveal_strlit(":");
                assert(colon@ =~= seq![':']);
            }
            line.append(colon);
            line.append(k.public_id.as_str());
            line.append(colon);
            let ph: String = hex_encode(k.private_id.bytes.as_slice());
            line.append(ph.as_str());
            line.append(colon);
            let kh: String = hex_encode(k.encryption_key.bytes.as_slice());
            line.append(kh.as_str());
            line.append(colon);
            let cu: String = u32_to_dec(k.last_usage_count as u32);
            line.append(cu.as_str());
            line.append(colon);
            let cs: String = u32_to_dec(k.last_session_count as u32);
            line.append(cs.as_str());
            proof {
                assert(line@ == record_line(self.keys@[i as int]));
                assert(lines.deep_view().push(line@) =~= lines.deep_view() + seq![line@]);
            }
            lines.push(line);
            i += 1;
        }
        lines
    }
}

/// The anti-replay rule: an OTP is newer than the stored state when its
/// usage counter is strictly greater, or equal with a strictly greater
/// session counter.
pub open spec fn counter_newer(counter: u16, session: u8, last_counter: u16, last_session: u8) -> bool {
    counter > last_counter || (counter == last_counter && session > last_session)
}

/// A record is a candidate for an OTP when its public id equals the OTP's
/// prefix and its account equals the claimed username.
pub open spec fn candidate_selected(k: Yubikey, prefix: Seq<char>, username: Seq<char>) -> bool {
    k.public_id@ == prefix && k.local_username@ == username
}

/// The whole acceptance test of one record against a trimmed 44-character
/// OTP text: the record is a candidate, the decrypted block passes the
/// checksum, its private id equals the stored one, and its counters pass
/// the anti-replay rule.
pub open spec fn candidate_accepts(k: Yubikey, t: Seq<char>, username: Seq<char>) -> bool {
    let block = aes128_decrypt(k.encryption_key@, demodhex_seq(t.subrange(12, 44)));
    &&& candidate_selected(k, t.subrange(0, 12), username)
    &&& crc_residue_ok(block)
    &&& block.subrange(0, 6) == k.private_id@
    &&& counter_newer(le16(block, 6), block[11], k.last_usage_count, k.last_session_count)
}

/// A trimmed OTP text the engine can decode at all: exactly 44 characters,
/// the last 32 of them modhex.
pub open spec fn otp_well_formed(t: Seq<char>) -> bool {
    t.len() == 44 && is_modhex(t.subrange(12, 44))
}

/// The record after an accepted OTP: same identity and key, counters taken
/// from the decrypted block.
pub open spec fn counters_updated(k2: Yubikey, k: Yubikey, block: Seq<u8>) -> bool {
    &&& k2.local_username == k.local_username
    &&& k2.public_id == k.public_id
    &&& k2.private_id == k.private_id
    &&& k2.encryption_key == k.encryption_key
    &&& k2.last_usage_count == le16(block, 6)
    &&& k2.last_session_count == block[11]
}

impl YubikeyStore {
    /// Validates an OTP for a claimed user and applies the anti-replay rule.
    ///
    /// The text is trimmed; anything but 44 characters is "no match" with
    /// the store untouched. Records are tried in store order; the first one
    /// that is selected by public id and username, decrypts to a block with
    /// the right checksum and private id, and passes the anti-replay rule,
    /// has its counters updated in place and the decoded OTP is returned.
    /// Every other outcome - wrong length, bad modhex, unknown public id or
    /// user, checksum or private-id mismatch, replay - is the uniform
    /// "no match" (`None`), with the store untouched. The caller persists
    /// the updated store lines after a match.
    pub fn validate_otp_for_user(&mut self, otp: &str, username: &str) -> (r: Option<YubikeyOtp>)
        requires
            old(self).wf(),
        ensures
            final(self).wf(),
            final(self).filename == old(self).filename,
            !otp_well_formed(trim_spec(otp@)) ==> r is None && *final(self) == *old(self),
            (otp_well_formed(trim_spec(otp@)) && (forall|i: int|
                0 <= i < old(self).keys@.len() ==> !candidate_accepts(
                    #[trigger] old(self).keys@[i],
                    trim_spec(otp@),
                    username@,
                ))) ==> r is None && *final(self) == *old(self),
            forall|j: int|
                (0 <= j < old(self).keys@.len() && otp_well_formed(trim_spec(otp@))
                    && candidate_accepts(#[trigger] old(self).keys@[j], trim_spec(otp@), username@)
                    && (forall|k2: int|
                    0 <= k2 < j ==> !candidate_accepts(
                        #[trigger] old(self).keys@[k2],
                        trim_spec(otp@),
                        username@,
                    ))) ==> {
                    let block = aes128_decrypt(
                        old(self).keys@[j].encryption_key@,
                        demodhex_seq(trim_spec(otp@).subrange(12, 44)),
                    );
                    &&& (r matches Some(o) && otp_fields_ok(
                        o,
                        trim_spec(otp@).subrange(0, 12),
                        block,
                    ))
                    &&& final(self).keys@.len() == old(self).keys@.len()
                    &&& forall|i: int|
                        0 <= i < old(self).keys@.len() && i != j ==> final(self).keys@[i] == old(
                            self,
                        ).keys@[i]
                    &&& counters_updated(final(self).keys@[j], old(self).keys@[j], block)
                },
            r is Some ==> otp_well_formed(trim_spec(otp@)) && (exists|j: int|
                0 <= j < old(self).keys@.len() && candidate_accepts(
                    #[trigger] old(self).keys@[j],
                    trim_spec(otp@),
                    username@,
                )),
    {
        let otp_t: &str = trim(otp);
        let ghost t = trim_spec(otp@);
        if otp_t.unicode_len() != 44 {
            return None;
        }
        let public_id: &str = otp_t.substring_char(0, 12);
        let suffix: &str = otp_t.substring_char(12, 44);
        let cipher: Vec<u8> = match demodhex(suffix) {
            Ok(v) => v,
            Err(_) => {
                return None;
            },
        };
        proof {
            assert(cipher@ == demodhex_seq(t.subrange(12, 44)));
            assert(cipher@.len() == 16);
        }
        let username_s: String = String::from_str(username);
        let public_id_s: String = String::from_str(public_id);
        let n: usize = self.keys.len();
        let mut i: usize = 0;
        while i < n
            invariant
                i <= n,
                n == self.keys@.len(),
                *self == *old(self),
                self.wf(),
                t == trim_spec(otp@),
                otp_well_formed(t),
                cipher@ == demodhex_seq(t.subrange(12, 44)),
                cipher@.len() == 16,
                username_s@ == username@,
                public_id_s@ == t.subrange(0, 12),
                public_id@ == t.subrange(0, 12),
                forall|k2: int|
                    0 <= k2 < i ==> !candidate_accepts(
                        #[trigger] old(self).keys@[k2],
                        t,
                        username@,
                    ),
            decreases n - i,
        {
            let ghost cand = self.keys@[i as int];
            let ghost block_g = aes128_decrypt(
                cand.encryption_key@,
                demodhex_seq(t.subrange(12, 44)),
            );
            if self.keys[i].public_id == public_id_s && self.keys[i].local_username == username_s {
                let block: Vec<u8> = aes128_decrypt_block(
                    self.keys[i].encryption_key.bytes.as_slice(),
                    cipher.as_slice(),
                );
                proof {
                    assert(block@.take(16) =~= block@);
                }
                if verify_crc(block.as_slice()) {
                    let otp_rec: YubikeyOtp = YubikeyOtp::from_bytes(
                        public_id,
                        block.as_slice(),
                    ).unwrap();
                    if bytes_equal(
                        otp_rec.private_id.bytes.as_slice(),
                        self.keys[i].private_id.bytes.as_slice(),
                    ) {
                        if otp_rec.counter > self.keys[i].last_usage_count || (otp_rec.counter
                            == self.keys[i].last_usage_count && otp_rec.session_counter
                            > self.keys[i].last_session_count) {
                            proof {
                                assert(candidate_accepts(cand, t, username@));
                            }
                            self.keys[i].last_session_count = otp_rec.session_counter;
                            self.keys[i].last_usage_count = otp_rec.counter;
                            proof {
                                assert(counters_updated(self.keys@[i as int], cand, block_g));
                            }
                            return Some(otp_rec);
                        } else {
                            proof {
                                assert(!counter_newer(
                                    le16(block_g, 6),
                                    block_g[11],
                                    cand.last_usage_count,
                                    cand.last_session_count,
                                ));
                            }
                        }
                    } else {
                        proof {
                            assert(block_g.subrange(0, 6) != cand.private_id@);
                        }
                    }
                } else {
                    proof {
                        assert(!crc_residue_ok(block_g));
                    }
                }
            } else {
                proof {
                    assert(!candidate_selected(cand, t.subrange(0, 12), username@));
                }
            }
            proof {
                assert(!candidate_accepts(cand, t, username@));
            }
            i += 1;
        }
        None
    }
}

} // verus!