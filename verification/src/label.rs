//! Domain names and character-strings.
//!
//! On the wire a domain name is a chain of length-prefixed labels that ends
//! either in the zero-length root label or in a two-byte compression pointer
//! whose top two bits are set; the remaining fourteen bits are an absolute
//! offset into the message buffer where the rest of the name lies.  A
//! character-string is a single length octet followed by that many bytes.
use vstd::prelude::*;
use vstd::slice::{slice_subrange, slice_to_vec};
use vstd::string::StringSliceAdditionalSpecFns;

verus! {

/// The byte that separates the segments of a dotted domain-name text.
pub const DOT: u8 = 46;

/// The ways a name or character-string can fail to parse or to encode.
#[derive(Debug, Clone, Copy, PartialEq, Eq, Structural)]
pub enum LabelError {
    /// An input sequence has a length greater than 255.
    MaxSizeReached(usize),
    /// The buffer ran out before a terminator.
    IncompleteBuffer,
    /// A label is encoded with a size larger than the rest of the buffer.
    FalseEncodedLength(u8),
    /// A compression pointer does not lead strictly backwards to a
    /// decodable name, so following it could never terminate.
    InvalidPointer(u16),
}

/// A single length octet followed by that number of bytes, treated as
/// binary information.
#[derive(Debug, Clone, PartialEq, Eq)]
pub struct CharacterString(pub Vec<u8>);

impl View for CharacterString {
    type V = Seq<u8>;

    open spec fn view(&self) -> Seq<u8> {
        self.0@
    }
}

/// A domain name: literal labels ending either in the root label or in a
/// compression pointer.
#[derive(Debug, Clone, PartialEq, Eq)]
pub enum Label {
    /// Literal labels closed by the zero-length root label.
    Sequence(Vec<CharacterString>),
    /// Literal labels closed by a pointer to an absolute buffer offset
    /// where the name goes on.
    Compressed(Vec<CharacterString>, u16),
}

/// The mathematical shape of a `Label`: its label contents, and the pointer
/// offset if one closes it.
#[verifier::ext_equal]
pub enum LabelView {
    Sequence(Seq<Seq<u8>>),
    Compressed(Seq<Seq<u8>>, u16),
}

/// The contents of a label list.
pub open spec fn strings_view(v: Seq<CharacterString>) -> Seq<Seq<u8>> {
    v.map_values(|c: CharacterString| c@)
}

impl View for Label {
    type V = LabelView;

    open spec fn view(&self) -> LabelView {
        match self {
            Label::Sequence(v) => LabelView::Sequence(strings_view(v@)),
            Label::Compressed(v, off) => LabelView::Compressed(strings_view(v@), *off),
        }
    }
}

impl LabelView {
    /// The literal label contents, whatever closes the name.
    pub open spec fn strings(self) -> Seq<Seq<u8>> {
        match self {
            LabelView::Sequence(ss) => ss,
            LabelView::Compressed(ss, _) => ss,
        }
    }
}

/// A further label string joined to the front of a name.
pub open spec fn label_prepend(s: Seq<u8>, lv: LabelView) -> LabelView {
    match lv {
        LabelView::Sequence(ss) => LabelView::Sequence(seq![s] + ss),
        LabelView::Compressed(ss, off) => LabelView::Compressed(seq![s] + ss, off),
    }
}

/// A list of label strings joined to the front of a name.
pub open spec fn label_concat(ss: Seq<Seq<u8>>, lv: LabelView) -> LabelView {
    match lv {
        LabelView::Sequence(ts) => LabelView::Sequence(ss + ts),
        LabelView::Compressed(ts, off) => LabelView::Compressed(ss + ts, off),
    }
}

/// The offset a two-byte compression pointer carries: the low six bits of
/// the first byte and all of the second.
pub open spec fn pointer_of(b0: u8, b1: u8) -> u16 {
    (((b0 as int) - 192) * 256 + (b1 as int)) as u16
}

/// The two bytes that encode a compression pointer: the offset with the
/// top two bits set.
pub open spec fn pointer_bytes(off: u16) -> Seq<u8> {
    seq![(192 + (off / 256) % 64) as u8, (off % 256) as u8]
}

/// What parsing one character-string from the front of a buffer returns:
/// the content bytes and the count of consumed bytes.
pub open spec fn spec_parse_character_string(b: Seq<u8>) -> Result<(Seq<u8>, int), LabelError> {
    if b.len() == 0 {
        Err(LabelError::IncompleteBuffer)
    } else {
        let n = b[0] as int;
        if b.len() < n + 1 {
            Err(LabelError::FalseEncodedLength(b[0]))
        } else {
            Ok((b.subrange(1, n + 1), n + 1))
        }
    }
}

/// What parsing one whole name from the front of a buffer returns.  Each
/// length byte is read in turn: zero closes the name, a byte of 192 or
/// more is the first half of a closing pointer, anything else prefixes a
/// literal label.
pub open spec fn spec_parse_label(b: Seq<u8>) -> Result<(LabelView, int), LabelError>
    decreases b.len(),
{
    if b.len() == 0 {
        Err(LabelError::IncompleteBuffer)
    } else if b[0] == 0 {
        Ok((LabelView::Sequence(Seq::empty()), 1))
    } else if b[0] >= 192 {
        if b.len() < 2 {
            Err(LabelError::IncompleteBuffer)
        } else {
            Ok((LabelView::Compressed(Seq::empty(), pointer_of(b[0], b[1])), 2))
        }
    } else {
        let n = b[0] as int;
        if b.len() < n + 1 {
            Err(LabelError::FalseEncodedLength(b[0]))
        } else {
            match spec_parse_label(b.skip(n + 1)) {
                Ok(t) => Ok((label_prepend(b.subrange(1, n + 1), t.0), n + 1 + t.1)),
                Err(e) => Err(e),
            }
        }
    }
}

/// A parse result with the parsed value taken to its view.
pub open spec fn cs_result_view(r: Result<(CharacterString, usize), LabelError>) -> Result<
    (Seq<u8>, int),
    LabelError,
> {
    match r {
        Ok((c, n)) => Ok((c@, n as int)),
        Err(e) => Err(e),
    }
}

/// A parse result with the parsed value taken to its view.
pub open spec fn label_result_view(r: Result<(Label, usize), LabelError>) -> Result<
    (LabelView, int),
    LabelError,
> {
    match r {
        Ok((l, n)) => Ok((l@, n as int)),
        Err(e) => Err(e),
    }
}

/// Parses one character-string from the front of the buffer: the length
/// octet, then that many bytes.  Returns the string and how many bytes
/// were consumed; fails when the buffer is empty or shorter than the
/// length octet announces.
pub fn parse_character_string(value: &[u8]) -> (r: Result<(CharacterString, usize), LabelError>)
    ensures
        cs_result_view(r) == spec_parse_character_string(value@),
{
    if value.len() == 0 {
        return Err(LabelError::IncompleteBuffer);
    }
    let n = value[0] as usize;
    if value.len() < n + 1 {
        return Err(LabelError::FalseEncodedLength(value[0]));
    }
    let content = slice_to_vec(slice_subrange(value, 1, n + 1));
    Ok((CharacterString(content), n + 1))
}

/// Parses one whole name from the front of the buffer, label by label,
/// stopping at the root label or at a compression pointer.  Returns the
/// name and how many bytes were consumed.
pub fn parse_label(value: &[u8]) -> (r: Result<(Label, usize), LabelError>)
    ensures
        label_result_view(r) == spec_parse_label(value@),
{
    let mut strings: Vec<CharacterString> = Vec::new();
    let mut i: usize = 0;
    proof {
        assert(value@.skip(0) =~= value@);
        assert(strings_view(strings@) =~= Seq::<Seq<u8>>::empty());
        match spec_parse_label(value@) {
            Ok(t) => {
                lemma_concat_empty(t.0);
            },
            Err(e) => {},
        }
    }
    loop
        invariant
            i <= value@.len(),
            (match spec_parse_label(value@.skip(i as int)) {
                Ok(t) => spec_parse_label(value@) == Ok::<(LabelView, int), LabelError>(
                    (label_concat(strings_view(strings@), t.0), i + t.1),
                ),
                Err(e) => spec_parse_label(value@) == Err::<(LabelView, int), LabelError>(e),
            }),
        decreases value@.len() - i,
    {
        if i >= value.len() {
            assert(value@.skip(i as int).len() == 0);
            return Err(LabelError::IncompleteBuffer);
        }
        let ghost rest = value@.skip(i as int);
        assert(rest[0] == value@[i as int]);
        let b0 = value[i];
        if b0 == 0 {
            proof {
                assert(strings_view(strings@) + Seq::<Seq<u8>>::empty() =~= strings_view(
                    strings@,
                ));
            }
            return Ok((Label::Sequence(strings), i + 1));
        }
        if b0 >= 192 {
            if i + 1 >= value.len() {
                assert(rest.len() < 2);
                return Err(LabelError::IncompleteBuffer);
            }
            assert(rest[1] == value@[i as int + 1]);
            let b1 = value[i + 1];
            let off: u16 = ((b0 - 192) as u16) * 256 + (b1 as u16);
            proof {
                assert(off == pointer_of(b0, b1));
                assert(strings_view(strings@) + Seq::<Seq<u8>>::empty() =~= strings_view(
                    strings@,
                ));
            }
            return Ok((Label::Compressed(strings, off), i + 2));
        }
        let n = b0 as usize;
        if value.len() - i < n + 1 {
            assert(rest.len() < n + 1);
            return Err(LabelError::FalseEncodedLength(b0));
        }
        let content = slice_to_vec(slice_subrange(value, i + 1, i + 1 + n));
        proof {
            assert(content@ =~= rest.subrange(1, n + 1));
            assert(rest.skip(n + 1) =~= value@.skip(i + n + 1));
        }
        let ghost old_strings = strings@;
        strings.push(CharacterString(content));
        proof {
            assert(strings_view(strings@) =~= strings_view(old_strings).push(content@));
            match spec_parse_label(value@.skip(i + n + 1)) {
                Ok(t) => {
                    lemma_concat_prepend(strings_view(old_strings), content@, t.0);
                },
                Err(e) => {},
            }
        }
        i = i + n + 1;
    }
}

/// The bytes one character-string encodes to: the length octet, then the
/// content.  Meaningful only when the content fits the octet.
pub open spec fn cs_enc(s: Seq<u8>) -> Seq<u8> {
    seq![s.len() as u8] + s
}

/// The bytes a list of literal labels encodes to, in order.
pub open spec fn strings_enc(ss: Seq<Seq<u8>>) -> Seq<u8>
    decreases ss.len(),
{
    if ss.len() == 0 {
        Seq::empty()
    } else {
        cs_enc(ss[0]) + strings_enc(ss.drop_first())
    }
}

/// The bytes a whole name encodes to: its labels, then the root label or
/// the closing pointer.
pub open spec fn label_enc(lv: LabelView) -> Seq<u8> {
    match lv {
        LabelView::Sequence(ss) => strings_enc(ss) + seq![0u8],
        LabelView::Compressed(ss, off) => strings_enc(ss) + pointer_bytes(off),
    }
}

/// The content fits the length octet.
pub open spec fn cs_encodable(s: Seq<u8>) -> bool {
    s.len() <= 255
}

/// Every label content fits its length octet, so the name encodes.
pub open spec fn label_encodable(lv: LabelView) -> bool {
    forall|i: int| 0 <= i < lv.strings().len() ==> cs_encodable(#[trigger] lv.strings()[i])
}

/// The length octet of this label content cannot be mistaken for the root
/// label or for a pointer byte.
pub open spec fn cs_unambiguous(s: Seq<u8>) -> bool {
    1 <= s.len() <= 191
}

/// Every length octet of the name reads back as a literal label, and a
/// closing pointer offset fits its fourteen bits: such a name survives the
/// trip over the wire exactly.
pub open spec fn label_unambiguous(lv: LabelView) -> bool {
    &&& forall|i: int| 0 <= i < lv.strings().len() ==> cs_unambiguous(#[trigger] lv.strings()[i])
    &&& match lv {
        LabelView::Compressed(_, off) => off < 16384,
        LabelView::Sequence(_) => true,
    }
}

/// What encoding one character-string returns: its wire bytes, or the
/// error naming the oversized content.
pub open spec fn spec_encode_character_string(s: Seq<u8>) -> Result<Seq<u8>, LabelError> {
    if s.len() > 255 {
        Err(LabelError::MaxSizeReached(s.len() as usize))
    } else {
        Ok(cs_enc(s))
    }
}

/// What encoding a list of literal labels returns: their wire bytes in
/// order, or the first error.
pub open spec fn spec_encode_strings(ss: Seq<Seq<u8>>) -> Result<Seq<u8>, LabelError>
    decreases ss.len(),
{
    if ss.len() == 0 {
        Ok(Seq::empty())
    } else {
        match spec_encode_character_string(ss[0]) {
            Ok(h) => match spec_encode_strings(ss.drop_first()) {
                Ok(t) => Ok(h + t),
                Err(e) => Err(e),
            },
            Err(e) => Err(e),
        }
    }
}

/// What encoding a whole name returns: its labels then the terminator, or
/// the first error.
pub open spec fn spec_encode_label(lv: LabelView) -> Result<Seq<u8>, LabelError> {
    match lv {
        LabelView::Sequence(ss) => match spec_encode_strings(ss) {
            Ok(b) => Ok(b + seq![0u8]),
            Err(e) => Err(e),
        },
        LabelView::Compressed(ss, off) => match spec_encode_strings(ss) {
            Ok(b) => Ok(b + pointer_bytes(off)),
            Err(e) => Err(e),
        },
    }
}

/// An encode result with the produced buffer taken to its view.
pub open spec fn enc_result_view(r: Result<Vec<u8>, LabelError>) -> Result<Seq<u8>, LabelError> {
    match r {
        Ok(v) => Ok(v@),
        Err(e) => Err(e),
    }
}

/// Encoding a list of labels succeeds exactly when each content fits its
/// length octet, and then writes `strings_enc`.
pub proof fn lemma_encode_strings_ok(ss: Seq<Seq<u8>>)
    ensures
        (spec_encode_strings(ss) is Ok) <==> (forall|i: int|
            0 <= i < ss.len() ==> cs_encodable(#[trigger] ss[i])),
        spec_encode_strings(ss) matches Ok(b) ==> b == strings_enc(ss),
    decreases ss.len(),
{
    if ss.len() == 0 {
    } else {
        let dd = ss.drop_first();
        lemma_encode_strings_ok(dd);
        if cs_encodable(ss[0]) && (spec_encode_strings(dd) is Ok) {
            assert forall|i: int| 0 <= i < ss.len() implies cs_encodable(#[trigger] ss[i]) by {
                if i > 0 {
                    assert(ss[i] == dd[i - 1]);
                    assert(cs_encodable(dd[i - 1]));
                }
            }
        }
        if forall|i: int| 0 <= i < ss.len() ==> cs_encodable(#[trigger] ss[i]) {
            assert forall|i: int| 0 <= i < dd.len() implies cs_encodable(#[trigger] dd[i]) by {
                assert(dd[i] == ss[i + 1]);
                assert(cs_encodable(ss[i + 1]));
            }
        }
    }
}

/// Encoding a name succeeds exactly when it is encodable, and then writes
/// `label_enc`.
pub proof fn lemma_encode_label_ok(lv: LabelView)
    ensures
        (spec_encode_label(lv) is Ok) <==> label_encodable(lv),
        spec_encode_label(lv) matches Ok(b) ==> b == label_enc(lv),
{
    lemma_encode_strings_ok(lv.strings());
    match lv {
        LabelView::Sequence(ss) => {},
        LabelView::Compressed(ss, off) => {},
    }
}

/// Writes the wire bytes of the labels held in a list, in order; fails
/// with the first content that does not fit its length octet.
pub(crate) fn encode_strings(v: &Vec<CharacterString>) -> (r: Result<Vec<u8>, LabelError>)
    ensures
        enc_result_view(r) == spec_encode_strings(strings_view(v@)),
{
    let ghost sv = strings_view(v@);
    let mut out: Vec<u8> = Vec::new();
    let mut i: usize = 0;
    proof {
        assert(sv.skip(0) =~= sv);
    }
    while i < v.len()
        invariant
            i <= v@.len(),
            sv == strings_view(v@),
            (match spec_encode_strings(sv.skip(i as int)) {
                Ok(t) => spec_encode_strings(sv) == Ok::<Seq<u8>, LabelError>(out@ + t),
                Err(e) => spec_encode_strings(sv) == Err::<Seq<u8>, LabelError>(e),
            }),
        decreases v@.len() - i,
    {
        let ghost rest = sv.skip(i as int);
        proof {
            assert(rest[0] == sv[i as int]);
            assert(rest.drop_first() =~= sv.skip(i as int + 1));
        }
        let s = &v[i];
        if s.0.len() > 255 {
            return Err(LabelError::MaxSizeReached(s.0.len()));
        }
        let ghost before = out@;
        out.push(s.0.len() as u8);
        crate::wire::push_bytes(&mut out, s.0.as_slice());
        proof {
            assert(out@ =~= before + cs_enc(sv[i as int]));
            match spec_encode_strings(sv.skip(i as int + 1)) {
                Ok(t) => {
                    assert(before + (cs_enc(sv[i as int]) + t) =~= out@ + t);
                },
                Err(e) => {},
            }
        }
        i = i + 1;
    }
    proof {
        assert(sv.skip(v@.len() as int) =~= Seq::<Seq<u8>>::empty());
        assert(out@ + Seq::<u8>::empty() =~= out@);
    }
    Ok(out)
}

impl CharacterString {
    /// Writes the length octet and the content; fails when the content is
    /// longer than 255 bytes.
    pub fn encode(&self) -> (r: Result<Vec<u8>, LabelError>)
        ensures
            enc_result_view(r) == spec_encode_character_string(self@),
    {
        if self.0.len() > 255 {
            return Err(LabelError::MaxSizeReached(self.0.len()));
        }
        let mut out: Vec<u8> = Vec::new();
        out.push(self.0.len() as u8);
        crate::wire::push_bytes(&mut out, self.0.as_slice());
        proof {
            assert(out@ =~= cs_enc(self@));
        }
        Ok(out)
    }
}

impl Label {
    /// Writes the name: each label as its length octet and content, then
    /// the root label, or the closing two-byte pointer in its place.
    /// Fails with the first label content longer than 255 bytes.
    pub fn encode(&self) -> (r: Result<Vec<u8>, LabelError>)
        ensures
            enc_result_view(r) == spec_encode_label(self@),
    {
        match self {
            Label::Sequence(v) => {
                let mut out = match encode_strings(v) {
                    Ok(out) => out,
                    Err(e) => {
                        return Err(e);
                    },
                };
                let ghost before = out@;
                out.push(0);
                proof {
                    assert(out@ =~= before + seq![0u8]);
                }
                Ok(out)
            },
            Label::Compressed(v, off) => {
                let mut out = match encode_strings(v) {
                    Ok(out) => out,
                    Err(e) => {
                        return Err(e);
                    },
                };
                let ghost before = out@;
                out.push(192 + ((*off / 256) % 64) as u8);
                out.push((*off % 256) as u8);
                proof {
                    assert(out@ =~= before + pointer_bytes(*off));
                }
                Ok(out)
            },
        }
    }
}

/// Character-string round trip: parsing what a string of at most 255
/// bytes encodes to yields the string again, whatever follows it.
pub proof fn lemma_character_string_round_trip(s: Seq<u8>, rest: Seq<u8>)
    requires
        cs_encodable(s),
    ensures
        spec_parse_character_string(cs_enc(s) + rest) == Ok::<(Seq<u8>, int), LabelError>(
            (s, s.len() as int + 1),
        ),
{
    let b = cs_enc(s) + rest;
    assert(b[0] == s.len() as u8);
    assert(b.subrange(1, s.len() as int + 1) =~= s);
}

/// Name round trip: parsing what an unambiguous name encodes to yields the
/// name again, whatever follows it.
pub proof fn lemma_label_round_trip(lv: LabelView, rest: Seq<u8>)
    requires
        label_unambiguous(lv),
    ensures
        spec_parse_label(label_enc(lv) + rest) == Ok::<(LabelView, int), LabelError>(
            (lv, label_enc(lv).len() as int),
        ),
    decreases lv.strings().len(),
{
    let b = label_enc(lv) + rest;
    let ss = lv.strings();
    if ss.len() == 0 {
        match lv {
            LabelView::Sequence(_) => {
                assert(strings_enc(ss) =~= Seq::<u8>::empty());
                assert(b[0] == 0);
                assert(lv =~= LabelView::Sequence(Seq::empty()));
            },
            LabelView::Compressed(_, off) => {
                assert(strings_enc(ss) =~= Seq::<u8>::empty());
                assert(b[0] == (192 + (off / 256) % 64) as u8);
                assert(b[1] == (off % 256) as u8);
                assert(off / 256 < 64 && (off / 256) % 64 == off / 256 && (off / 256) * 256 + (
                off % 256) == off) by (nonlinear_arith)
                    requires
                        0 <= off < 16384,
                ;
                assert(b[0] >= 192);
                assert(pointer_of(b[0], b[1]) == off);
                assert(lv =~= LabelView::Compressed(Seq::empty(), off));
            },
        }
    } else {
        let s0 = ss[0];
        assert(cs_unambiguous(s0));
        let dd = ss.drop_first();
        let ghost inner = match lv {
            LabelView::Sequence(_) => LabelView::Sequence(dd),
            LabelView::Compressed(_, off) => LabelView::Compressed(dd, off),
        };
        assert(forall|i: int| 0 <= i < dd.len() ==> cs_unambiguous(#[trigger] dd[i])) by {
            assert(forall|i: int| 0 <= i < dd.len() ==> #[trigger] dd[i] == ss[i + 1]);
        }
        assert(inner.strings() == dd);
        assert(label_unambiguous(inner));
        assert(strings_enc(ss) == cs_enc(s0) + strings_enc(dd));
        let n = s0.len() as int;
        assert(b[0] == s0.len() as u8);
        assert(1 <= b[0] < 192);
        assert(b.len() >= n + 2);
        assert(b.subrange(1, n + 1) =~= s0);
        assert(b.skip(n + 1) =~= label_enc(inner) + rest);
        lemma_label_round_trip(inner, rest);
        assert(label_prepend(s0, inner) =~= lv) by {
            assert(seq![s0] + dd =~= ss);
        }
        assert(label_enc(lv).len() == n + 1 + label_enc(inner).len());
    }
}

/// The longest dot-free prefix of a dotted text.
pub open spec fn take_seg(b: Seq<u8>) -> Seq<u8>
    decreases b.len(),
{
    if b.len() == 0 || b[0] == DOT {
        Seq::empty()
    } else {
        seq![b[0]] + take_seg(b.drop_first())
    }
}

/// What splitting a dotted text into label contents returns: the segments
/// between the dots, each of which must hold 1 to 255 bytes, or the first
/// error.  An empty segment also covers the empty text and a trailing dot.
pub open spec fn spec_parse_name_text(b: Seq<u8>) -> Result<Seq<Seq<u8>>, LabelError>
    decreases b.len(),
{
    let s = take_seg(b);
    if s.len() == 0 {
        Err(LabelError::IncompleteBuffer)
    } else if s.len() > 255 {
        Err(LabelError::MaxSizeReached(s.len() as usize))
    } else if s.len() >= b.len() {
        Ok(seq![s])
    } else {
        match spec_parse_name_text(b.skip(s.len() as int + 1)) {
            Ok(t) => Ok(seq![s] + t),
            Err(e) => Err(e),
        }
    }
}

/// The dot-free prefix is the bytes up to the first dot.
proof fn lemma_take_seg(b: Seq<u8>, m: int)
    requires
        0 <= m <= b.len(),
        forall|k: int| 0 <= k < m ==> b[k] != DOT,
        m == b.len() || b[m] == DOT,
    ensures
        take_seg(b) == b.subrange(0, m),
    decreases b.len(),
{
    if m == 0 {
        assert(take_seg(b) =~= b.subrange(0, 0));
    } else {
        assert(b[0] != DOT);
        let d = b.drop_first();
        assert forall|k: int| 0 <= k < m - 1 implies d[k] != DOT by {
            assert(d[k] == b[k + 1]);
        }
        assert(m - 1 == d.len() || d[m - 1] == b[m]);
        lemma_take_seg(d, m - 1);
        assert(seq![b[0]] + d.subrange(0, m - 1) =~= b.subrange(0, m));
    }
}

impl Label {
    /// Splits the input around dots into a sequence of literal labels.
    /// Every segment must hold 1 to 255 bytes: an empty text, adjacent
    /// dots, or a leading or trailing dot leave an empty segment and are
    /// rejected, as is a segment longer than 255 bytes.
    pub fn parse(value: &[u8]) -> (r: Result<Label, LabelError>)
        ensures
            (match r {
                Ok(l) => spec_parse_name_text(value@) matches Ok(ss) && l@ == LabelView::Sequence(
                    ss,
                ),
                Err(e) => spec_parse_name_text(value@) == Err::<Seq<Seq<u8>>, LabelError>(e),
            }),
    {
        let mut strings: Vec<CharacterString> = Vec::new();
        let mut p: usize = 0;
        proof {
            assert(value@.skip(0) =~= value@);
            assert(strings_view(strings@) =~= Seq::<Seq<u8>>::empty());
            match spec_parse_name_text(value@) {
                Ok(t) => {
                    assert(Seq::<Seq<u8>>::empty() + t =~= t);
                },
                Err(e) => {},
            }
        }
        loop
            invariant
                p <= value@.len(),
                (match spec_parse_name_text(value@.skip(p as int)) {
                    Ok(t) => spec_parse_name_text(value@) == Ok::<Seq<Seq<u8>>, LabelError>(
                        strings_view(strings@) + t,
                    ),
                    Err(e) => spec_parse_name_text(value@) == Err::<Seq<Seq<u8>>, LabelError>(e),
                }),
            decreases value@.len() - p,
        {
            let ghost rest = value@.skip(p as int);
            let mut j: usize = p;
            while j < value.len() && value[j] != DOT
                invariant
                    p <= j <= value@.len(),
                    forall|k: int| p <= k < j ==> value@[k] != DOT,
                decreases value@.len() - j,
            {
                j = j + 1;
            }
            proof {
                assert forall|k: int| 0 <= k < j - p implies rest[k] != DOT by {
                    assert(rest[k] == value@[p + k]);
                }
                assert(j - p == rest.len() || rest[j - p] == value@[j as int]);
                lemma_take_seg(rest, j - p);
                assert(rest.subrange(0, j - p) =~= value@.subrange(p as int, j as int));
            }
            if j == p {
                return Err(LabelError::IncompleteBuffer);
            }
            if j - p > 255 {
                return Err(LabelError::MaxSizeReached(j - p));
            }
            let content = slice_to_vec(slice_subrange(value, p, j));
            let ghost old_strings = strings@;
            strings.push(CharacterString(content));
            proof {
                assert(strings_view(strings@) =~= strings_view(old_strings).push(content@));
            }
            if j == value.len() {
                proof {
                    assert(strings_view(old_strings) + seq![content@] =~= strings_view(
                        strings@,
                    ));
                }
                return Ok(Label::Sequence(strings));
            }
            proof {
                assert(rest.skip(j - p + 1) =~= value@.skip(j as int + 1));
                match spec_parse_name_text(value@.skip(j as int + 1)) {
                    Ok(t) => {
                        assert(strings_view(old_strings) + (seq![content@] + t) =~= strings_view(
                            strings@,
                        ) + t);
                    },
                    Err(e) => {},
                }
            }
            p = j + 1;
        }
    }

    /// Splits the input around `'.'` into a sequence of literal labels; the
    /// byte-level rules of `parse` apply to the UTF-8 bytes of the text.
    pub fn parse_str(value: &str) -> (r: Result<Label, LabelError>)
        ensures
            (match r {
                Ok(l) => spec_parse_name_text(value.spec_bytes()) matches Ok(ss) && l@
                    == LabelView::Sequence(ss),
                Err(e) => spec_parse_name_text(value.spec_bytes()) == Err::<
                    Seq<Seq<u8>>,
                    LabelError,
                >(e),
            }),
    {
        Label::parse(value.as_bytes())
    }
}

/// What expanding a name against the whole message buffer returns.  A
/// trailing pointer must lead strictly below the given bound; the labels
/// found at its target are spliced in, and the target becomes the bound
/// for the next pointer, so following the chain always terminates.
pub open spec fn spec_expand(lv: LabelView, buf: Seq<u8>, bound: nat) -> Result<
    LabelView,
    LabelError,
>
    decreases bound,
{
    match lv {
        LabelView::Sequence(ss) => Ok(LabelView::Sequence(ss)),
        LabelView::Compressed(ss, off) => {
            if off as nat >= bound || off as int > buf.len() {
                Err(LabelError::InvalidPointer(off))
            } else {
                match spec_parse_label(buf.skip(off as int)) {
                    Ok(t) => match spec_expand(t.0, buf, off as nat) {
                        Ok(l) => Ok(label_concat(ss, l)),
                        Err(e) => Err(e),
                    },
                    Err(e) => Err(e),
                }
            }
        },
    }
}

/// Labels joined to the front of a name pass through its expansion.
proof fn lemma_expand_concat(ss: Seq<Seq<u8>>, lv: LabelView, buf: Seq<u8>, bound: nat)
    ensures
        spec_expand(label_concat(ss, lv), buf, bound) == (match spec_expand(lv, buf, bound) {
            Ok(l) => Ok::<LabelView, LabelError>(label_concat(ss, l)),
            Err(e) => Err::<LabelView, LabelError>(e),
        }),
{
    match lv {
        LabelView::Sequence(ts) => {},
        LabelView::Compressed(ts, off) => {
            if !(off as nat >= bound || off as int > buf.len()) {
                match spec_parse_label(buf.skip(off as int)) {
                    Ok(t) => {
                        match spec_expand(t.0, buf, off as nat) {
                            Ok(l) => {
                                assert(label_concat(ss + ts, l) == label_concat(
                                    ss,
                                    label_concat(ts, l),
                                )) by {
                                    match l {
                                        LabelView::Sequence(us) => {
                                            assert((ss + ts) + us =~= ss + (ts + us));
                                        },
                                        LabelView::Compressed(us, o2) => {
                                            assert((ss + ts) + us =~= ss + (ts + us));
                                        },
                                    }
                                }
                            },
                            Err(e) => {},
                        }
                    },
                    Err(e) => {},
                }
            }
        },
    }
}

/// Replaces a trailing compression pointer with the labels found at its
/// target, repeatedly, until the name ends in the root label.  Each target
/// must lie strictly below the previous one, the first strictly below
/// `bound`: a forward or self-referential pointer is rejected as
/// `InvalidPointer` rather than followed without end.
pub fn expand_label(label: Label, buf: &[u8], bound: usize) -> (r: Result<Label, LabelError>)
    ensures
        (match r {
            Ok(l) => spec_expand(label@, buf@, bound as nat) == Ok::<LabelView, LabelError>(l@)
                && l@ is Sequence,
            Err(e) => spec_expand(label@, buf@, bound as nat) == Err::<LabelView, LabelError>(e),
        }),
{
    let mut cur = label;
    let mut cur_bound = bound;
    loop
        invariant
            spec_expand(label@, buf@, bound as nat) == spec_expand(cur@, buf@, cur_bound as nat),
        decreases cur_bound,
    {
        match cur {
            Label::Sequence(v) => {
                return Ok(Label::Sequence(v));
            },
            Label::Compressed(mut v, off) => {
                if off as usize >= cur_bound || off as usize > buf.len() {
                    return Err(LabelError::InvalidPointer(off));
                }
                let target = slice_subrange(buf, off as usize, buf.len());
                proof {
                    assert(target@ =~= buf@.skip(off as int));
                }
                let parsed = match parse_label(target) {
                    Ok(t) => t,
                    Err(e) => {
                        return Err(e);
                    },
                };
                let l2 = parsed.0;
                let ghost vv = strings_view(v@);
                let ghost l2v = l2@;
                match l2 {
                    Label::Sequence(mut ts) => {
                        let ghost tsv = strings_view(ts@);
                        v.append(&mut ts);
                        proof {
                            assert(strings_view(v@) =~= vv + tsv);
                        }
                        cur = Label::Sequence(v);
                    },
                    Label::Compressed(mut ts, off2) => {
                        let ghost tsv = strings_view(ts@);
                        v.append(&mut ts);
                        proof {
                            assert(strings_view(v@) =~= vv + tsv);
                        }
                        cur = Label::Compressed(v, off2);
                    },
                }
                proof {
                    assert(cur@ == label_concat(vv, l2v));
                    lemma_expand_concat(vv, l2v, buf@, off as nat);
                }
                cur_bound = off as usize;
            },
        }
    }
}

/// An unambiguous name is in particular encodable: every label content of
/// 1 to 191 bytes fits its length octet.
pub proof fn lemma_unambiguous_encodable(lv: LabelView)
    ensures
        label_unambiguous(lv) ==> label_encodable(lv),
{
    if label_unambiguous(lv) {
        assert forall|i: int| 0 <= i < lv.strings().len() implies cs_encodable(
            #[trigger] lv.strings()[i],
        ) by {
            assert(cs_unambiguous(lv.strings()[i]));
        }
    }
}

/// A parsed name consumes at least one byte and at most the whole buffer.
pub proof fn lemma_parse_label_len(b: Seq<u8>)
    ensures
        spec_parse_label(b) matches Ok(t) ==> 1 <= t.1 <= b.len(),
    decreases b.len(),
{
    if b.len() == 0 {
    } else if b[0] == 0 {
    } else if b[0] >= 192 {
    } else {
        let n = b[0] as int;
        if b.len() >= n + 1 {
            lemma_parse_label_len(b.skip(n + 1));
        }
    }
}

/// Name compression: when the bytes at a pointer's target parse to a
/// literal label sequence, expanding a name that ends in that pointer
/// splices exactly that sequence in.
pub proof fn lemma_expand_pointer(
    buf: Seq<u8>,
    off: u16,
    bound: nat,
    ss: Seq<Seq<u8>>,
    ts: Seq<Seq<u8>>,
    n: int,
)
    requires
        spec_parse_label(buf.skip(off as int)) == Ok::<(LabelView, int), LabelError>(
            (LabelView::Sequence(ts), n),
        ),
        (off as nat) < bound,
        off as int <= buf.len(),
    ensures
        spec_expand(LabelView::Compressed(ss, off), buf, bound) == Ok::<LabelView, LabelError>(
            LabelView::Sequence(ss + ts),
        ),
{
    assert(spec_expand(LabelView::Sequence(ts), buf, off as nat) == Ok::<LabelView, LabelError>(
        LabelView::Sequence(ts),
    ));
    assert(label_concat(ss, LabelView::Sequence(ts)) == LabelView::Sequence(ss + ts));
}

/// Joining nothing to the front of a name leaves it as it is.
proof fn lemma_concat_empty(lv: LabelView)
    ensures
        label_concat(Seq::empty(), lv) == lv,
{
    match lv {
        LabelView::Sequence(ts) => {
            assert(Seq::<Seq<u8>>::empty() + ts =~= ts);
        },
        LabelView::Compressed(ts, off) => {
            assert(Seq::<Seq<u8>>::empty() + ts =~= ts);
        },
    }
}

/// Joining a string to a list and then to a name is joining it to the name
/// first.
proof fn lemma_concat_prepend(ss: Seq<Seq<u8>>, s: Seq<u8>, lv: LabelView)
    ensures
        label_concat(ss.push(s), lv) == label_concat(ss, label_prepend(s, lv)),
{
    match lv {
        LabelView::Sequence(ts) => {
            assert(ss.push(s) + ts =~= ss + (seq![s] + ts));
        },
        LabelView::Compressed(ts, off) => {
            assert(ss.push(s) + ts =~= ss + (seq![s] + ts));
        },
    }
}

} // verus!
