//! The text form of a hash record:
//! `Sinkproof:<version>:<threads>:<memory_mb>:<salt>:<sealed phrase>`, the
//! last two in standard base64.
use base64::engine::general_purpose;
use base64::Engine;
use vstd::prelude::*;
use vstd::string::StrSliceExecFns;

verus! {

/// The base64 text (standard alphabet, padded) of a byte sequence.
pub uninterp spec fn base64_encoded_of(bytes: Seq<u8>) -> Seq<char>;

/// The bytes that a standard base64 text decodes to, or `None` where it is
/// not valid base64.
pub uninterp spec fn base64_decoded_of(text: Seq<char>) -> Option<Seq<u8>>;

/// Relies on base64's `general_purpose::STANDARD.encode`: the standard
/// alphabet (letters, digits, `+`, `/`) with `=` padding, which `decode` of
/// the same engine takes back to the input.
#[verifier::external_body]
fn base64_encode(bytes: &[u8]) -> (r: Vec<char>)
    ensures
        r@ == base64_encoded_of(bytes@),
        forall|i: int| 0 <= i < r@.len() ==> r@[i] != ':',
        base64_decoded_of(r@) == Some(bytes@),
{
    general_purpose::STANDARD.encode(bytes).chars().collect()
}

/// Relies on base64's `general_purpose::STANDARD.decode`: the decoded bytes,
/// or an error on text that is not valid standard base64.
#[verifier::external_body]
fn base64_decode(text: &[char]) -> (r: Option<Vec<u8>>)
    ensures
        match r {
            Some(b) => base64_decoded_of(text@) == Some(b@),
            None => base64_decoded_of(text@) is None,
        },
{
    let s: String = text.iter().collect();
    general_purpose::STANDARD.decode(s).ok()
}

/// The characters of the text, in order. Each lookup walks the text, so
/// this is quadratic in its length; record texts are short.
fn chars_of(s: &str) -> (r: Vec<char>)
    ensures
        r@ == s@,
{
    let n = s.unicode_len();
    let mut out: Vec<char> = Vec::new();
    let mut k: usize = 0;
    while k < n
        invariant
            n == s@.len(),
            k <= n,
            out@ == s@.take(k as int),
        decreases n - k,
    {
        out.push(s.get_char(k));
        assert(s@.take(k + 1) =~= s@.take(k as int).push(s@[k as int]));
        k = k + 1;
    }
    assert(s@.take(n as int) =~= s@);
    out
}

/// Relies on `String: FromIterator<char>`: the text of these characters.
#[verifier::external_body]
fn string_of(c: &[char]) -> (r: String)
    ensures
        r@ == c@,
{
    c.iter().collect()
}

/// Which part of a record text is malformed.
#[derive(Debug, Clone, Copy, PartialEq, Eq, Structural)]
pub enum FormatError {
    /// The text does not have exactly six `:`-separated fields.
    FieldCount,
    /// The first field is not `Sinkproof`.
    Tag,
    /// The thread count is not a decimal number (with at most one leading
    /// `+`) that fits a `usize`.
    Threads,
    /// The memory size is not a decimal number (with at most one leading
    /// `+`) that fits a `usize`. Verification also reports it for a memory
    /// size whose byte count does not fit a `usize`; parsing does not.
    Memory,
    /// The salt is not valid base64.
    Salt,
    /// The sealed phrase is not valid base64.
    Ciphertext,
}

/// The contents of a hash record.
pub struct RecordModel {
    pub version: Seq<char>,
    pub threads: nat,
    pub memory_mb: nat,
    pub salt: Seq<u8>,
    pub encrypted_phrase: Seq<u8>,
}

/// A complete hash: the parameters it was made with, its salt and the
/// sealed verification phrase.
#[derive(Debug, Clone)]
pub struct SinkproofHash {
    pub version: String,
    pub threads: usize,
    pub memory_mb: usize,
    pub salt: Vec<u8>,
    pub encrypted_phrase: Vec<u8>,
}

impl View for SinkproofHash {
    type V = RecordModel;

    open spec fn view(&self) -> RecordModel {
        RecordModel {
            version: self.version@,
            threads: self.threads as nat,
            memory_mb: self.memory_mb as nat,
            salt: self.salt@,
            encrypted_phrase: self.encrypted_phrase@,
        }
    }
}

/// The first field of every record.
pub open spec fn tag_chars() -> Seq<char> {
    seq!['S', 'i', 'n', 'k', 'p', 'r', 'o', 'o', 'f']
}

/// The character of the decimal digit `d`.
pub open spec fn digit_char(d: nat) -> char {
    seq!['0', '1', '2', '3', '4', '5', '6', '7', '8', '9'][(d % 10) as int]
}

/// Whether `c` is one of `0` to `9`.
pub open spec fn is_digit(c: char) -> bool {
    48 <= (c as u32) <= 57
}

/// The value of the decimal digit `c`.
pub open spec fn digit_value(c: char) -> nat {
    ((c as u32) - 48) as nat
}

/// The decimal digits of `n`, most significant first, without leading zeros.
pub open spec fn decimal(n: nat) -> Seq<char>
    decreases n,
{
    if n < 10 {
        seq![digit_char(n)]
    } else {
        decimal(n / 10).push(digit_char(n % 10))
    }
}

/// The number that a string of decimal digits spells.
pub open spec fn digits_value(s: Seq<char>) -> nat
    decreases s.len(),
{
    if s.len() == 0 {
        0
    } else {
        digits_value(s.drop_last()) * 10 + digit_value(s.last())
    }
}

/// The `usize` that `s` spells in decimal, if it is a non-empty string of
/// digits whose value fits.
pub open spec fn parse_digits(s: Seq<char>) -> Option<nat> {
    if s.len() > 0 && (forall|i: int| 0 <= i < s.len() ==> is_digit(#[trigger] s[i]))
        && digits_value(s) <= usize::MAX {
        Some(digits_value(s))
    } else {
        None
    }
}

/// The `usize` that `s` spells in decimal, with at most one leading `+`.
pub open spec fn parse_number(s: Seq<char>) -> Option<nat> {
    if s.len() > 0 && s[0] == '+' {
        parse_digits(s.skip(1))
    } else {
        parse_digits(s)
    }
}

/// The fields of `s` between its `:` characters.
pub open spec fn split_fields(s: Seq<char>) -> Seq<Seq<char>>
    decreases s.len(),
{
    if s.len() == 0 {
        seq![Seq::empty()]
    } else {
        let prev = split_fields(s.drop_last());
        if s.last() == ':' {
            prev.push(Seq::empty())
        } else {
            prev.update(prev.len() - 1, prev.last().push(s.last()))
        }
    }
}

/// The fields joined by `:`.
pub open spec fn join_fields(fields: Seq<Seq<char>>) -> Seq<char>
    decreases fields.len(),
{
    if fields.len() == 0 {
        Seq::empty()
    } else if fields.len() == 1 {
        fields[0]
    } else {
        join_fields(fields.drop_last()) + seq![':'] + fields.last()
    }
}

/// Whether `s` holds no `:`.
pub open spec fn has_no_colon(s: Seq<char>) -> bool {
    forall|i: int| 0 <= i < s.len() ==> s[i] != ':'
}

/// The text form of a record.
pub open spec fn serialized(r: RecordModel) -> Seq<char> {
    join_fields(
        seq![
            tag_chars(),
            r.version,
            decimal(r.threads),
            decimal(r.memory_mb),
            base64_encoded_of(r.salt),
            base64_encoded_of(r.encrypted_phrase),
        ],
    )
}

/// The record that a text holds, or the first malformed part of it.
pub open spec fn parse_record(text: Seq<char>) -> Result<RecordModel, FormatError> {
    let f = split_fields(text);
    if f.len() != 6 {
        Err(FormatError::FieldCount)
    } else if f[0] != tag_chars() {
        Err(FormatError::Tag)
    } else if parse_number(f[2]) is None {
        Err(FormatError::Threads)
    } else if parse_number(f[3]) is None {
        Err(FormatError::Memory)
    } else if base64_decoded_of(f[4]) is None {
        Err(FormatError::Salt)
    } else if base64_decoded_of(f[5]) is None {
        Err(FormatError::Ciphertext)
    } else {
        Ok(
            RecordModel {
                version: f[1],
                threads: parse_number(f[2])->0,
                memory_mb: parse_number(f[3])->0,
                salt: base64_decoded_of(f[4])->0,
                encrypted_phrase: base64_decoded_of(f[5])->0,
            },
        )
    }
}

/// Every text has at least one field.
proof fn lemma_split_nonempty(s: Seq<char>)
    ensures
        split_fields(s).len() >= 1,
    decreases s.len(),
{
    if s.len() > 0 {
        lemma_split_nonempty(s.drop_last());
    }
}

/// Characters without a `:` extend the last field.
proof fn lemma_split_plain(p: Seq<char>, f: Seq<char>)
    requires
        has_no_colon(f),
    ensures
        split_fields(p + f) == split_fields(p).update(
            split_fields(p).len() - 1,
            split_fields(p).last() + f,
        ),
    decreases f.len(),
{
    lemma_split_nonempty(p);
    if f.len() == 0 {
        assert(p + f =~= p);
        assert(split_fields(p).last() + f =~= split_fields(p).last());
        assert(split_fields(p).update(split_fields(p).len() - 1, split_fields(p).last())
            =~= split_fields(p));
    } else {
        let g = f.drop_last();
        lemma_split_plain(p, g);
        assert((p + f).drop_last() =~= p + g);
        assert((p + f).last() == f.last());
        let sp = split_fields(p);
        let q = split_fields(p + g);
        assert(q.len() == sp.len());
        assert(q.last() == sp.last() + g);
        assert(f.last() != ':');
        assert(split_fields(p + f) == q.update(q.len() - 1, q.last().push(f.last())));
        assert((sp.last() + g).push(f.last()) =~= sp.last() + f);
        assert(split_fields(p + f) =~= split_fields(p).update(
            split_fields(p).len() - 1,
            split_fields(p).last() + f,
        ));
    }
}

/// A `:` starts a new, empty field.
proof fn lemma_split_colon(p: Seq<char>)
    ensures
        split_fields(p + seq![':']) == split_fields(p).push(Seq::empty()),
{
    assert((p + seq![':']).drop_last() =~= p);
}

/// Splitting fields that hold no `:` after joining them gives them back.
pub proof fn lemma_split_join(fields: Seq<Seq<char>>)
    requires
        fields.len() >= 1,
        forall|i: int| 0 <= i < fields.len() ==> has_no_colon(#[trigger] fields[i]),
    ensures
        split_fields(join_fields(fields)) == fields,
    decreases fields.len(),
{
    if fields.len() == 1 {
        lemma_split_plain(Seq::empty(), fields[0]);
        assert(Seq::<char>::empty() + fields[0] =~= fields[0]);
        assert(split_fields(Seq::empty()).update(0, Seq::<char>::empty() + fields[0]) =~= fields);
    } else {
        let init = fields.drop_last();
        assert forall|i: int| 0 <= i < init.len() implies has_no_colon(#[trigger] init[i]) by {
            assert(init[i] == fields[i]);
        }
        lemma_split_join(init);
        let p = join_fields(init) + seq![':'];
        lemma_split_colon(join_fields(init));
        lemma_split_plain(p, fields.last());
        assert(Seq::<char>::empty() + fields.last() =~= fields.last());
        assert(split_fields(p).update(split_fields(p).len() - 1, split_fields(p).last() + fields.last())
            =~= fields);
    }
}

/// The decimal form of `n` is a non-empty string of digits without `:` that
/// spells `n`.
pub proof fn lemma_decimal(n: nat)
    ensures
        decimal(n).len() > 0,
        forall|i: int| 0 <= i < decimal(n).len() ==> is_digit(#[trigger] decimal(n)[i]),
        digits_value(decimal(n)) == n,
        has_no_colon(decimal(n)),
    decreases n,
{
    let d = n % 10;
    assert(is_digit(digit_char(d)) && digit_value(digit_char(d)) == d && digit_char(d) != ':');
    if n >= 10 {
        lemma_decimal(n / 10);
        assert(decimal(n).drop_last() =~= decimal(n / 10));
        assert(digits_value(decimal(n)) == (n / 10) * 10 + d);
    } else {
        assert(decimal(n).drop_last() =~= Seq::<char>::empty());
        assert(digits_value(Seq::<char>::empty()) == 0);
        assert(decimal(n).last() == digit_char(d));
        assert(digits_value(decimal(n)) == 0 * 10 + d);
    }
}

/// Appends the characters of `tail` to `dst`.
fn append_chars(dst: &mut Vec<char>, tail: &[char])
    ensures
        final(dst)@ == old(dst)@ + tail@,
{
    let mut k: usize = 0;
    while k < tail.len()
        invariant
            k <= tail@.len(),
            dst@ == old(dst)@ + tail@.subrange(0, k as int),
        decreases tail@.len() - k,
    {
        dst.push(tail[k]);
        assert(tail@.subrange(0, k + 1) =~= tail@.subrange(0, k as int).push(tail@[k as int]));
        k = k + 1;
    }
    assert(tail@.subrange(0, tail@.len() as int) =~= tail@);
}

/// Appends the decimal digits of `n` to `out`.
fn push_decimal(out: &mut Vec<char>, n: usize)
    ensures
        final(out)@ == old(out)@ + decimal(n as nat),
    decreases n,
{
    let digits: Vec<char> = vec!['0', '1', '2', '3', '4', '5', '6', '7', '8', '9'];
    assert(digits@ == seq!['0', '1', '2', '3', '4', '5', '6', '7', '8', '9']);
    if n >= 10 {
        push_decimal(out, n / 10);
    }
    let ghost before = out@;
    out.push(digits[n % 10]);
    assert(n < 10 ==> before + decimal(n as nat) =~= out@);
    assert(n >= 10 ==> old(out)@ + decimal(n as nat) =~= out@);
}

/// The `usize` that the characters of `s` from `start` on spell in decimal.
fn parse_digits_from(s: &[char], start: usize) -> (r: Option<usize>)
    requires
        start <= s@.len(),
    ensures
        match r {
            Some(v) => parse_digits(s@.skip(start as int)) == Some(v as nat),
            None => parse_digits(s@.skip(start as int)) is None,
        },
{
    let ghost t = s@.skip(start as int);
    if s.len() == start {
        return None;
    }
    let mut value: usize = 0;
    let mut too_big = false;
    let mut k: usize = start;
    while k < s.len()
        invariant
            start <= k <= s@.len(),
            t == s@.skip(start as int),
            forall|j: int| 0 <= j < k - start ==> is_digit(#[trigger] t[j]),
            too_big ==> digits_value(t.take(k - start)) > usize::MAX,
            !too_big ==> value == digits_value(t.take(k - start)),
        decreases s@.len() - k,
    {
        let c = s[k];
        let code = c as u32;
        if code < 48 || code > 57 {
            assert(!is_digit(t[k - start]));
            return None;
        }
        let d = (code - 48) as usize;
        assert(t[k - start] == c);
        assert(t.take(k + 1 - start).drop_last() =~= t.take(k - start));
        let ghost prev = digits_value(t.take(k - start));
        assert(digits_value(t.take(k + 1 - start)) == prev * 10 + d);
        if !too_big {
            if value > (usize::MAX - d) / 10 {
                assert(value * 10 + d > usize::MAX) by (nonlinear_arith)
                    requires
                        value > (usize::MAX - d) / 10,
                        d <= 9,
                ;
                too_big = true;
            } else {
                assert(value * 10 + d <= usize::MAX) by (nonlinear_arith)
                    requires
                        value <= (usize::MAX - d) / 10,
                        d <= 9,
                ;
                value = value * 10 + d;
            }
        } else {
            assert(prev * 10 + d > usize::MAX) by (nonlinear_arith)
                requires
                    prev > usize::MAX,
            ;
        }
        k = k + 1;
    }
    assert(t.take(s@.len() - start) =~= t);
    if too_big {
        None
    } else {
        Some(value)
    }
}

/// The `usize` that `s` spells in decimal, with at most one leading `+`.
fn parse_usize(s: &[char]) -> (r: Option<usize>)
    ensures
        match r {
            Some(v) => parse_number(s@) == Some(v as nat),
            None => parse_number(s@) is None,
        },
{
    if s.len() > 0 && s[0] == '+' {
        parse_digits_from(s, 1)
    } else {
        let r = parse_digits_from(s, 0);
        assert(s@.skip(0) =~= s@);
        r
    }
}

/// The views of a sequence of character vectors.
pub open spec fn field_views(v: Seq<Vec<char>>) -> Seq<Seq<char>> {
    Seq::new(v.len(), |i: int| v[i]@)
}

/// The fields of `s` between its `:` characters.
fn split_on_colon(s: &[char]) -> (r: Vec<Vec<char>>)
    ensures
        field_views(r@) == split_fields(s@),
{
    let mut fields: Vec<Vec<char>> = Vec::new();
    let mut current: Vec<char> = Vec::new();
    let mut k: usize = 0;
    while k < s.len()
        invariant
            k <= s@.len(),
            field_views(fields@).push(current@) == split_fields(s@.take(k as int)),
        decreases s@.len() - k,
    {
        let ghost before = field_views(fields@).push(current@);
        assert(s@.take(k + 1).drop_last() =~= s@.take(k as int));
        assert(s@.take(k + 1).last() == s@[k as int]);
        if s[k] == ':' {
            fields.push(current);
            current = Vec::new();
            assert(field_views(fields@).push(current@) =~= before.push(Seq::empty()));
        } else {
            current.push(s[k]);
            assert(field_views(fields@).push(current@) =~= before.update(
                before.len() - 1,
                before.last().push(s@[k as int]),
            ));
        }
        k = k + 1;
    }
    assert(s@.take(s@.len() as int) =~= s@);
    fields.push(current);
    assert(field_views(fields@) =~= split_fields(s@));
    fields
}

/// Whether the two character sequences are equal.
fn chars_equal(a: &[char], b: &[char]) -> (r: bool)
    ensures
        r == (a@ == b@),
{
    if a.len() != b.len() {
        return false;
    }
    let mut k: usize = 0;
    while k < a.len()
        invariant
            a@.len() == b@.len(),
            k <= a@.len(),
            forall|t: int| 0 <= t < k ==> a@[t] == b@[t],
        decreases a@.len() - k,
    {
        if a[k] != b[k] {
            return false;
        }
        k = k + 1;
    }
    assert(a@ =~= b@);
    true
}

proof fn lemma_join_step(fields: Seq<Seq<char>>, k: int)
    requires
        2 <= k <= fields.len(),
    ensures
        join_fields(fields.take(k)) == join_fields(fields.take(k - 1)) + seq![':'] + fields[k - 1],
{
    assert(fields.take(k).drop_last() =~= fields.take(k - 1));
}

/// The characters of the first field of every record.
fn tag_text() -> (r: Vec<char>)
    ensures
        r@ == tag_chars(),
{
    let r: Vec<char> = vec!['S', 'i', 'n', 'k', 'p', 'r', 'o', 'o', 'f'];
    assert(r@ =~= tag_chars());
    r
}

impl SinkproofHash {
    /// The text form of the record:
    /// `Sinkproof:<version>:<threads>:<memory_mb>:<salt>:<sealed phrase>`.
    /// Where the version holds no `:`, parsing the text gives the record back.
    pub fn to_string(&self) -> (r: String)
        ensures
            r@ == serialized(self@),
            has_no_colon(self.version@) ==> parse_record(r@) == Ok::<RecordModel, FormatError>(self@),
    {
        let ghost fields = seq![
            tag_chars(),
            self.version@,
            decimal(self.threads as nat),
            decimal(self.memory_mb as nat),
            base64_encoded_of(self.salt@),
            base64_encoded_of(self.encrypted_phrase@),
        ];
        let mut out: Vec<char> = tag_text();
        proof {
            assert(fields.take(1).len() == 1);
            assert(fields.take(1)[0] == tag_chars());
            assert(out@ =~= join_fields(fields.take(1)));
        }
        out.push(':');
        let version = chars_of(self.version.as_str());
        append_chars(&mut out, version.as_slice());
        proof {
            lemma_join_step(fields, 2);
            assert(out@ =~= join_fields(fields.take(2)));
        }
        out.push(':');
        push_decimal(&mut out, self.threads);
        proof {
            lemma_join_step(fields, 3);
            assert(out@ =~= join_fields(fields.take(3)));
        }
        out.push(':');
        push_decimal(&mut out, self.memory_mb);
        proof {
            lemma_join_step(fields, 4);
            assert(out@ =~= join_fields(fields.take(4)));
        }
        out.push(':');
        let salt_text = base64_encode(self.salt.as_slice());
        append_chars(&mut out, salt_text.as_slice());
        proof {
            lemma_join_step(fields, 5);
            assert(out@ =~= join_fields(fields.take(5)));
        }
        out.push(':');
        let phrase_text = base64_encode(self.encrypted_phrase.as_slice());
        append_chars(&mut out, phrase_text.as_slice());
        proof {
            lemma_join_step(fields, 6);
            assert(out@ =~= join_fields(fields.take(6)));
            assert(fields.take(6) =~= fields);
            if has_no_colon(self.version@) {
                lemma_decimal(self.threads as nat);
                lemma_decimal(self.memory_mb as nat);
                assert forall|i: int| 0 <= i < fields.len() implies has_no_colon(#[trigger] fields[i]) by {
                    if i == 0 {
                        assert(has_no_colon(tag_chars()));
                    }
                }
                lemma_split_join(fields);
                let f = split_fields(out@);
                assert(f == fields);
                assert(is_digit(f[2][0]) && is_digit(f[3][0]));
                assert(parse_number(f[2]) == Some(self.threads as nat));
                assert(parse_number(f[3]) == Some(self.memory_mb as nat));
                assert(base64_decoded_of(f[4]) == Some(self.salt@));
                assert(base64_decoded_of(f[5]) == Some(self.encrypted_phrase@));
                assert(f[0] == tag_chars());
            }
        }
        string_of(out.as_slice())
    }

    /// Reads a record from its text form. Fails, naming the part, on a text
    /// without exactly six `:`-separated fields, on a first field other than
    /// `Sinkproof`, on counts that are not decimal `usize` values, and on
    /// salt or sealed phrase that is not standard base64.
    pub fn from_string(hash_str: &str) -> (r: Result<SinkproofHash, FormatError>)
        ensures
            match r {
                Ok(h) => parse_record(hash_str@) == Ok::<RecordModel, FormatError>(h@),
                Err(e) => parse_record(hash_str@) == Err::<RecordModel, FormatError>(e),
            },
    {
        let text = chars_of(hash_str);
        let fields = split_on_colon(text.as_slice());
        assert(fields@.len() == split_fields(hash_str@).len());
        if fields.len() != 6 {
            return Err(FormatError::FieldCount);
        }
        let ghost f = split_fields(hash_str@);
        assert(forall|i: int| 0 <= i < 6 ==> #[trigger] fields@[i]@ == f[i]) by {
            assert(forall|i: int| 0 <= i < 6 ==> field_views(fields@)[i] == #[trigger] fields@[i]@);
        }
        let tag = tag_text();
        if !chars_equal(fields[0].as_slice(), tag.as_slice()) {
            return Err(FormatError::Tag);
        }
        let threads = match parse_usize(fields[2].as_slice()) {
            Some(v) => v,
            None => {
                return Err(FormatError::Threads);
            },
        };
        let memory_mb = match parse_usize(fields[3].as_slice()) {
            Some(v) => v,
            None => {
                return Err(FormatError::Memory);
            },
        };
        let salt = match base64_decode(fields[4].as_slice()) {
            Some(v) => v,
            None => {
                return Err(FormatError::Salt);
            },
        };
        let encrypted_phrase = match base64_decode(fields[5].as_slice()) {
            Some(v) => v,
            None => {
                return Err(FormatError::Ciphertext);
            },
        };
        let version = string_of(fields[1].as_slice());
        Ok(SinkproofHash { version, threads, memory_mb, salt, encrypted_phrase })
    }
}

} // verus!
