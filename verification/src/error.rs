//! Crate error type.
use crate::text::{chars_of, concat, decimal, parse_number, split_words};
use vstd::prelude::*;

verus! {

/// Errors raised by the HEIF container parser, the derivation /
/// composition layer and the writer.
#[derive(Debug, Clone, PartialEq, Eq)]
pub enum HeifError {
    /// The byte stream violates ISO/IEC 14496-12 / 23008-12 syntax or
    /// semantics (truncated box, bad version, dangling reference, …).
    InvalidData(String),
    /// The file is syntactically fine but uses a feature this crate does
    /// not implement (unknown item type, unsupported construction, …).
    Unsupported(String),
    /// A structural limit was exceeded (derivation depth, canvas size,
    /// item count, …). Raised before any large allocation happens.
    ResourceExhausted(String),
}

/// Crate-wide result alias.
pub type Result<T> = core::result::Result<T, HeifError>;

/// The class of an error: what contracts say of it.
pub enum ErrorKind {
    /// [`HeifError::InvalidData`].
    Invalid,
    /// [`HeifError::Unsupported`].
    Unsupported,
    /// [`HeifError::ResourceExhausted`].
    Exhausted,
}

/// What a computation gives in a contract: a value, or the class of an error.
pub type Outcome<T> = core::result::Result<T, ErrorKind>;

/// What contracts say of a result: the model of the value, or the class of the
/// error.
pub open spec fn outcome<T: DeepView>(r: Result<T>) -> core::result::Result<T::V, ErrorKind> {
    match r {
        Ok(v) => Ok(v.deep_view()),
        Err(e) => Err(e.kind()),
    }
}

/// [`outcome`] for values modelled by their view.
pub open spec fn view_outcome<T: View>(r: Result<T>) -> core::result::Result<T::V, ErrorKind> {
    match r {
        Ok(v) => Ok(v@),
        Err(e) => Err(e.kind()),
    }
}

/// [`outcome`] for values that are their own model.
pub open spec fn plain_outcome<T>(r: Result<T>) -> core::result::Result<T, ErrorKind> {
    match r {
        Ok(v) => Ok(v),
        Err(e) => Err(e.kind()),
    }
}

/// How the text of an error of a class begins.
pub open spec fn class_text(kind: ErrorKind) -> Seq<char> {
    match kind {
        ErrorKind::Invalid => "heif: invalid data: "@,
        ErrorKind::Unsupported => "heif: unsupported: "@,
        ErrorKind::Exhausted => "heif: resource exhausted: "@,
    }
}

/// The message of [`HeifError::layered_hevc`].
pub open spec fn layered_message(item_id: u32, target_ols_idx: u16) -> Seq<char> {
    "L-HEVC: "@ + "item "@ + crate::text::decimal_chars(item_id as nat) + " output layer set "@
        + crate::text::decimal_chars(target_ols_idx as nat)
        + " needs enhancement layers (base layer only)"@
}

/// The item id and output layer set a message names: its second and sixth
/// word after the prefix.
pub open spec fn layered_info(m: Seq<char>) -> Option<(u32, u16)> {
    let p = "L-HEVC: "@;
    if p.is_prefix_of(m) {
        let w = crate::text::words(m.subrange(p.len() as int, m.len() as int));
        if w.len() > 5 {
            match (crate::text::number(w[1], u32::MAX as nat), crate::text::number(
                w[5],
                u16::MAX as nat,
            )) {
                (Some(id), Some(ols)) => Some((id as u32, ols as u16)),
                _ => None,
            }
        } else {
            None
        }
    } else {
        None
    }
}

impl HeifError {
    /// The class of the error.
    pub open spec fn kind(self) -> ErrorKind {
        match self {
            HeifError::InvalidData(_) => ErrorKind::Invalid,
            HeifError::Unsupported(_) => ErrorKind::Unsupported,
            HeifError::ResourceExhausted(_) => ErrorKind::Exhausted,
        }
    }

    /// The message the error carries.
    pub open spec fn message(self) -> Seq<char> {
        match self {
            HeifError::InvalidData(m) => m@,
            HeifError::Unsupported(m) => m@,
            HeifError::ResourceExhausted(m) => m@,
        }
    }

    /// Build an [`HeifError::InvalidData`].
    pub fn invalid<S: Into<String>>(msg: S) -> (e: Self)
        ensures
            e matches HeifError::InvalidData(m) && call_ensures(S::into, (msg,), m),
    {
        Self::InvalidData(msg.into())
    }

    /// Build an [`HeifError::Unsupported`].
    pub fn unsupported<S: Into<String>>(msg: S) -> (e: Self)
        ensures
            e matches HeifError::Unsupported(m) && call_ensures(S::into, (msg,), m),
    {
        Self::Unsupported(msg.into())
    }

    /// Build an [`HeifError::ResourceExhausted`].
    pub fn exhausted<S: Into<String>>(msg: S) -> (e: Self)
        ensures
            e matches HeifError::ResourceExhausted(m) && call_ensures(S::into, (msg,), m),
    {
        Self::ResourceExhausted(msg.into())
    }

    /// The refusal for an L-HEVC (`lhv1`) item whose `tols` asks for
    /// an output layer set beyond the base layer. An
    /// [`HeifError::Unsupported`] whose message
    /// [`HeifError::layered_hevc_info`] reads back.
    pub fn layered_hevc(item_id: u32, target_ols_idx: u16) -> (e: Self)
        ensures
            e.kind() == ErrorKind::Unsupported,
            e.message() == layered_message(item_id, target_ols_idx),
    {
        let id: String = decimal(item_id as u64);
        let ols: String = decimal(target_ols_idx as u64);
        let parts: [&str; 6] = [
            "L-HEVC: ",
            "item ",
            id.as_str(),
            " output layer set ",
            ols.as_str(),
            " needs enhancement layers (base layer only)",
        ];
        let m: String = concat(&parts);
        proof {
            reveal_with_fuel(crate::text::concat_chars, 7);
            assert(m@ =~= layered_message(item_id, target_ols_idx));
        }
        HeifError::Unsupported(m)
    }

    /// `(item_id, target_ols_idx)` when this is the
    /// [`HeifError::layered_hevc`] refusal.
    pub fn layered_hevc_info(&self) -> (r: Option<(u32, u16)>)
        ensures
            r == (if self.kind() == ErrorKind::Unsupported {
                layered_info(self.message())
            } else {
                None
            }),
    {
        let m: &String = match self {
            HeifError::Unsupported(m) => m,
            _ => {
                return None;
            },
        };
        let prefix: Vec<char> = chars_of("L-HEVC: ");
        let all: Vec<char> = chars_of(m.as_str());
        if all.len() < prefix.len() {
            return None;
        }
        let mut rest: Vec<char> = Vec::new();
        let mut i: usize = 0;
        while i < all.len()
            invariant
                i <= all@.len(),
                prefix@ == "L-HEVC: "@,
                all@ == m@,
                prefix@.len() <= all@.len(),
                forall|j: int| 0 <= j < i && j < prefix@.len() ==> all@[j] == prefix@[j],
                i <= prefix@.len() ==> rest@.len() == 0,
                i > prefix@.len() ==> rest@ == all@.subrange(prefix@.len() as int, i as int),
                self.kind() == ErrorKind::Unsupported,
                self.message() == m@,
            decreases all@.len() - i,
        {
            if i < prefix.len() {
                if all[i] != prefix[i] {
                    return None;
                }
            } else {
                rest.push(all[i]);
            }
            i = i + 1;
        }
        proof {
            assert(prefix@.is_prefix_of(all@));
            assert(rest@ =~= m@.subrange(prefix@.len() as int, m@.len() as int));
        }
        let words: Vec<Vec<char>> = split_words(&rest);
        if words.len() <= 5 {
            return None;
        }
        proof {
            assert(words.deep_view()[1] =~= words@[1]@);
            assert(words.deep_view()[5] =~= words@[5]@);
        }
        match (parse_number(&words[1], u32::MAX as u64), parse_number(&words[5], u16::MAX as u64)) {
            (Some(id), Some(ols)) => Some((id as u32, ols as u16)),
            _ => None,
        }
    }

    /// The text shown for the error: its class and its message.
    pub fn to_string(&self) -> (s: String)
        ensures
            s@ == class_text(self.kind()) + self.message(),
    {
        match self {
            HeifError::InvalidData(m) => String::from_str("heif: invalid data: ").concat(m.as_str()),
            HeifError::Unsupported(m) => String::from_str("heif: unsupported: ").concat(m.as_str()),
            HeifError::ResourceExhausted(m) => String::from_str("heif: resource exhausted: ").concat(
                m.as_str(),
            ),
        }
    }
}

/// The refusal of a layered item reads back as the item and the output layer
/// set it was made for.
#[verifier::rlimit(80)]
#[verifier::spinoff_prover]
pub proof fn law_layered_refusal_reads_back(item_id: u32, target_ols_idx: u16)
    ensures
        layered_info(layered_message(item_id, target_ols_idx)) == Some((item_id, target_ols_idx)),
{
    reveal_strlit("L-HEVC: ");
    reveal_strlit("item ");
    reveal_strlit(" output layer set ");
    reveal_strlit(" needs enhancement layers (base layer only)");
    let id = crate::text::decimal_chars(item_id as nat);
    let ols = crate::text::decimal_chars(target_ols_idx as nat);
    crate::text::lemma_decimal_reads_back(item_id as nat);
    crate::text::lemma_decimal_reads_back(target_ols_idx as nat);
    let m = layered_message(item_id, target_ols_idx);
    let p = "L-HEVC: "@;
    let s = "item "@ + id + " output layer set "@ + ols
        + " needs enhancement layers (base layer only)"@;
    assert(m =~= p + s);
    assert(p.is_prefix_of(m)) by {
        assert(m.subrange(0, p.len() as int) =~= p);
    }
    assert(m.subrange(p.len() as int, m.len() as int) =~= s);
    let a: int = 5 + id.len() as int;
    let b: int = a + 18 + ols.len() as int;
    let w0: Seq<Seq<char>> = Seq::empty();
    let w1 = w0.push(s.subrange(0, 4));
    let w2 = w1.push(s.subrange(5, a));
    let w3 = w2.push(s.subrange(a + 1, a + 7));
    let w4 = w3.push(s.subrange(a + 8, a + 13));
    let w5 = w4.push(s.subrange(a + 14, a + 17));
    let w6 = w5.push(s.subrange(a + 18, b));
    assert forall|k: int| 5 <= k < a implies !crate::text::is_white(#[trigger] s[k]) by {
        assert(s[k] == id[k - 5]);
        assert(crate::text::is_digit(id[k - 5]));
    }
    assert forall|k: int| a + 18 <= k < b implies !crate::text::is_white(#[trigger] s[k]) by {
        assert(s[k] == ols[k - a - 18]);
        assert(crate::text::is_digit(ols[k - a - 18]));
    }
    assert forall|k: int| a <= k < a + 18 implies #[trigger] s[k] == " output layer set "@[k - a] by {}
    assert(s[b] == " needs enhancement layers (base layer only)"@[0]);
    crate::text::lemma_next_word(s, 0, 0, 4, w0);
    crate::text::lemma_next_word(s, 4, 5, a, w1);
    crate::text::lemma_next_word(s, a, a + 1, a + 7, w2);
    crate::text::lemma_next_word(s, a + 7, a + 8, a + 13, w3);
    crate::text::lemma_next_word(s, a + 13, a + 14, a + 17, w4);
    crate::text::lemma_next_word(s, a + 17, a + 18, b, w5);
    crate::text::lemma_words_stay(s, b, w6);
    let w = crate::text::words(s);
    assert(w.subrange(0, 6) == w6);
    assert(w[1] == w6[1] && w[5] == w6[5]) by {
        assert(w.subrange(0, 6)[1] == w[1]);
        assert(w.subrange(0, 6)[5] == w[5]);
    }
    assert(w[1] =~= id);
    assert(w[5] =~= ols);
    assert(crate::text::is_digit(id[0]) && crate::text::is_digit(ols[0]));
}

} // verus!
