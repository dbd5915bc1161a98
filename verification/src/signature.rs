//! Signatures: what marks the start of an embedded file, and how its end is
//! found.
use vstd::prelude::*;
use vstd::string::*;
use vstd::utf8::encode_utf8;
use crate::bytes::le32;
use crate::names::{
    ar_name, extract_ar_name, extract_cpio_newc_name, extract_cpio_odc_name, extract_pak_name,
    extract_tar_name, extract_wad_name, field_text, name_of, newc_name, odc_name, pak_name,
    tar_name, until_nul, wad_name,
};
use crate::numbers::{field_number, padded_field_number};
use crate::search::occurs_at;
use crate::text::{is_trimmed, law_trim_trims, lossy, same_text};
use crate::validators::Validator;

verus! {

broadcast use crate::slices::slice_len_bound;

/// How the name of an embedded file is found in its structure.
#[derive(Clone, Copy, Debug, PartialEq, Eq, Structural)]
pub enum NameExtractor {
    Tar,
    CpioNewc,
    CpioOdc,
    Ar,
    Wad,
    Pak,
}

impl NameExtractor {
    /// The name of the file at `start` of `s`.
    pub open spec fn name(self, s: Seq<u8>, start: int) -> Option<Seq<char>> {
        match self {
            NameExtractor::Tar => tar_name(s, start),
            NameExtractor::CpioNewc => newc_name(s, start),
            NameExtractor::CpioOdc => odc_name(s, start),
            NameExtractor::Ar => ar_name(s, start),
            NameExtractor::Wad => wad_name(s, start),
            NameExtractor::Pak => pak_name(s, start),
        }
    }

    /// The name of the file at `start` of `data`.
    pub fn extract(self, data: &[u8], start: usize) -> (r: Option<String>)
        ensures
            name_of(r) == self.name(data@, start as int),
    {
        match self {
            NameExtractor::Tar => extract_tar_name(data, start),
            NameExtractor::CpioNewc => extract_cpio_newc_name(data, start),
            NameExtractor::CpioOdc => extract_cpio_odc_name(data, start),
            NameExtractor::Ar => extract_ar_name(data, start),
            NameExtractor::Wad => extract_wad_name(data, start),
            NameExtractor::Pak => extract_pak_name(data, start),
        }
    }
}

/// A name that is found is not empty, and has no white space at either end.
pub proof fn law_names_are_trimmed(extractor: NameExtractor, s: Seq<u8>, start: int)
    ensures
        extractor.name(s, start) matches Some(name) ==> name.len() > 0 && is_trimmed(name),
{
    match extractor {
        NameExtractor::Tar => {
            let name = field_text(s.subrange(start, start + 100));
            let prefix = field_text(s.subrange(start + 345, start + 500));
            law_trim_trims(lossy(until_nul(s.subrange(start, start + 100))));
            law_trim_trims(lossy(until_nul(s.subrange(start + 345, start + 500))));
            let path = prefix + "/"@ + name;
            if name.len() > 0 && prefix.len() > 0 {
                assert(path.first() == prefix.first());
                assert(path.last() == name.last());
            }
        },
        NameExtractor::CpioNewc => {
            if let Some(n) = field_number(s.subrange(start + 94, start + 102), 16) {
                law_trim_trims(lossy(until_nul(s.subrange(start + 110, start + 110 + n))));
            }
        },
        NameExtractor::CpioOdc => {
            if let Some(n) = padded_field_number(s.subrange(start + 59, start + 65), 8) {
                law_trim_trims(lossy(until_nul(s.subrange(start + 76, start + 76 + n))));
            }
        },
        NameExtractor::Ar => {
            law_trim_trims(lossy(until_nul(s.subrange(start + 8, start + 24))));
        },
        NameExtractor::Wad => {
            let entry = start + le32(s, start + 8);
            law_trim_trims(lossy(until_nul(s.subrange(entry + 8, entry + 16))));
        },
        NameExtractor::Pak => {
            let entry = start + le32(s, start + 4);
            law_trim_trims(lossy(until_nul(s.subrange(entry, entry + 56))));
        },
    }
}

/// A kind of file that can be found.
#[derive(Clone, Copy)]
pub struct Signature {
    /// The name of the format.
    pub name: &'static str,
    /// The extension that extracted files get.
    pub extension: &'static str,
    /// What the format is.
    pub description: &'static str,
    /// What the format is used for.
    pub note: &'static str,
    /// The bytes that mark such a file.
    pub magic: &'static [u8],
    /// How far behind the start of the file they stand.
    pub relative_offset: usize,
    /// The validator that finds the end of the file.
    pub validator: Option<Validator>,
    /// Bytes that end the file, where there is no validator or it fails.
    pub end_marker: Option<&'static [u8]>,
    /// Where the name of the file is found.
    pub name_extractor: Option<NameExtractor>,
}

impl Signature {
    /// The magic bytes and the end marker are not empty, and the magic bytes end
    /// at an offset that can be addressed.
    pub open spec fn wf(self) -> bool {
        &&& self.magic@.len() > 0
        &&& self.relative_offset + self.magic@.len() <= usize::MAX
        &&& self.end_marker matches Some(marker) ==> marker@.len() > 0
    }

    /// Whether the signature is well formed.
    pub fn is_sound(&self) -> (r: bool)
        ensures
            r == self.wf(),
    {
        let marked = match self.end_marker {
            Some(marker) => marker.len() > 0,
            None => true,
        };
        marked && self.magic.len() > 0 && self.magic.len() <= usize::MAX - self.relative_offset
    }

    /// The magic bytes of a file at `start` are in their place in `s`.
    pub open spec fn matches_at(self, s: Seq<u8>, start: int) -> bool {
        0 <= start && occurs_at(s, self.magic@, start + self.relative_offset)
    }
}

/// Every signature is well formed.
pub open spec fn all_wf(signatures: Seq<Signature>) -> bool {
    forall|k: int| 0 <= k < signatures.len() ==> (#[trigger] signatures[k]).wf()
}

/// `a` comes before `b` in lexicographic order, or equals it.
pub open spec fn lex_le(a: Seq<u8>, b: Seq<u8>) -> bool
    decreases a.len(),
{
    if a.len() == 0 {
        true
    } else if b.len() == 0 {
        false
    } else {
        a[0] < b[0] || (a[0] == b[0] && lex_le(a.drop_first(), b.drop_first()))
    }
}

/// The order of texts: that of their UTF-8 encodings.
pub open spec fn text_le(a: Seq<char>, b: Seq<char>) -> bool {
    lex_le(encode_utf8(a), encode_utf8(b))
}

/// The order is total.
pub proof fn lemma_lex_total(a: Seq<u8>, b: Seq<u8>)
    ensures
        lex_le(a, b) || lex_le(b, a),
    decreases a.len(),
{
    if a.len() > 0 && b.len() > 0 {
        lemma_lex_total(a.drop_first(), b.drop_first());
    }
}

/// The order is transitive.
pub proof fn lemma_lex_transitive(a: Seq<u8>, b: Seq<u8>, c: Seq<u8>)
    requires
        lex_le(a, b),
        lex_le(b, c),
    ensures
        lex_le(a, c),
    decreases a.len(),
{
    if a.len() > 0 && b.len() > 0 && c.len() > 0 && a[0] == b[0] && b[0] == c[0] {
        lemma_lex_transitive(a.drop_first(), b.drop_first(), c.drop_first());
    }
}

/// The signatures are in the order of their names.
pub open spec fn sorted_by_name(signatures: Seq<Signature>) -> bool {
    forall|i: int, j: int|
        0 <= i < j < signatures.len() ==> text_le(
            (#[trigger] signatures[i]).name@,
            (#[trigger] signatures[j]).name@,
        )
}

/// Whether `a` comes before `b` in lexicographic order, or equals it.
pub fn bytes_le(a: &[u8], b: &[u8]) -> (r: bool)
    ensures
        r == lex_le(a@, b@),
{
    let mut i: usize = 0;
    assert(a@.skip(0) == a@);
    assert(b@.skip(0) == b@);
    while i < a.len()
        invariant
            i <= a@.len(),
            i <= b@.len(),
            lex_le(a@, b@) == lex_le(a@.skip(i as int), b@.skip(i as int)),
        decreases a@.len() - i,
    {
        if i >= b.len() {
            return false;
        }
        if a[i] != b[i] {
            return a[i] < b[i];
        }
        assert(a@.skip(i as int).drop_first() == a@.skip(i + 1));
        assert(b@.skip(i as int).drop_first() == b@.skip(i + 1));
        i = i + 1;
    }
    true
}

/// Whether the name of `a` comes before that of `b` or equals it.
fn name_le(a: &Signature, b: &Signature) -> (r: bool)
    ensures
        r == text_le(a.name@, b.name@),
{
    bytes_le(a.name.as_bytes(), b.name.as_bytes())
}

/// Inserting an element adds it to the collection of elements.
proof fn lemma_insert_multiset(s: Seq<Signature>, i: int, x: Signature)
    requires
        0 <= i <= s.len(),
    ensures
        s.insert(i, x).to_multiset() == s.to_multiset().insert(x),
{
    broadcast use vstd::seq_lib::group_to_multiset_ensures;

    assert(s.insert(i, x) == s.take(i).push(x) + s.skip(i));
    assert(s == s.take(i) + s.skip(i));
    vstd::seq_lib::lemma_multiset_commutative(s.take(i).push(x), s.skip(i));
    vstd::seq_lib::lemma_multiset_commutative(s.take(i), s.skip(i));
    assert(s.insert(i, x).to_multiset() =~= s.to_multiset().insert(x));
}

/// The same signatures in the order of their names.
pub fn sort_by_name(signatures: Vec<Signature>) -> (r: Vec<Signature>)
    ensures
        r@.to_multiset() == signatures@.to_multiset(),
        sorted_by_name(r@),
{
    broadcast use vstd::seq_lib::group_to_multiset_ensures;

    let mut out: Vec<Signature> = Vec::new();
    let mut i: usize = 0;
    assert(signatures@.take(0) == Seq::<Signature>::empty());
    while i < signatures.len()
        invariant
            i <= signatures@.len(),
            out@.to_multiset() == signatures@.take(i as int).to_multiset(),
            sorted_by_name(out@),
        decreases signatures@.len() - i,
    {
        let signature = signatures[i];
        let mut at = out.len();
        while at > 0 && !name_le(&out[at - 1], &signature)
            invariant
                at <= out@.len(),
                sorted_by_name(out@),
                forall|j: int|
                    at <= j < out@.len() ==> text_le(signature.name@, (#[trigger] out@[j]).name@),
            decreases at,
        {
            proof {
                lemma_lex_total(encode_utf8(out@[at - 1].name@), encode_utf8(signature.name@));
            }
            at = at - 1;
        }
        let ghost before = out@;
        out.insert(at, signature);
        proof {
            assert forall|a: int, b: int| 0 <= a < b < out@.len() implies text_le(
                (#[trigger] out@[a]).name@,
                (#[trigger] out@[b]).name@,
            ) by {
                if a < at && b == at {
                    if a < at - 1 {
                        assert(text_le(before[a].name@, before[at - 1].name@));
                        lemma_lex_transitive(
                            encode_utf8(before[a].name@),
                            encode_utf8(before[at - 1].name@),
                            encode_utf8(signature.name@),
                        );
                    }
                } else if a == at {
                    assert(out@[b] == before[b - 1]);
                } else {
                    let x = if a < at {
                        a
                    } else {
                        a - 1
                    };
                    let y = if b < at {
                        b
                    } else {
                        b - 1
                    };
                    assert(out@[a] == before[x] && out@[b] == before[y]);
                }
            }
            lemma_insert_multiset(before, at as int, signature);
            assert(out@ == before.insert(at as int, signature));
            assert(signatures@.take(i + 1) == signatures@.take(i as int).push(signature));
            signatures@.take(i as int).to_multiset_ensures();
        }
        i = i + 1;
    }
    assert(signatures@.take(i as int) == signatures@);
    out
}

/// The extension for files of that format: that of the first signature with that
/// name, or `bin`.
pub open spec fn extension_of(signatures: Seq<Signature>, format: Seq<char>, i: int) -> Seq<char>
    decreases signatures.len() - i,
{
    if i < 0 || i >= signatures.len() {
        "bin"@
    } else if signatures[i].name@ == format {
        signatures[i].extension@
    } else {
        extension_of(signatures, format, i + 1)
    }
}

/// The extension for files of that format.
pub fn extension_for(signatures: &Vec<Signature>, format: &str) -> (r: &'static str)
    ensures
        r@ == extension_of(signatures@, format@, 0),
{
    let mut i: usize = 0;
    while i < signatures.len()
        invariant
            i <= signatures@.len(),
            extension_of(signatures@, format@, 0) == extension_of(signatures@, format@, i as int),
        decreases signatures@.len() - i,
    {
        if same_text(signatures[i].name, format) {
            return signatures[i].extension;
        }
        i = i + 1;
    }
    "bin"
}

/// What files of that format are used for: the note of the first signature with
/// that name, or nothing.
pub open spec fn note_of(signatures: Seq<Signature>, format: Seq<char>, i: int) -> Seq<char>
    decreases signatures.len() - i,
{
    if i < 0 || i >= signatures.len() {
        ""@
    } else if signatures[i].name@ == format {
        signatures[i].note@
    } else {
        note_of(signatures, format, i + 1)
    }
}

/// What files of that format are used for.
pub fn usage_note(signatures: &Vec<Signature>, format: &str) -> (r: &'static str)
    ensures
        r@ == note_of(signatures@, format@, 0),
{
    let mut i: usize = 0;
    while i < signatures.len()
        invariant
            i <= signatures@.len(),
            note_of(signatures@, format@, 0) == note_of(signatures@, format@, i as int),
        decreases signatures@.len() - i,
    {
        if same_text(signatures[i].name, format) {
            return signatures[i].note;
        }
        i = i + 1;
    }
    ""
}

} // verus!
