//! What a proposal's texts must satisfy: bounded lengths (in UTF-8 bytes),
//! and a link that starts with a whitelisted link and holds only safe
//! characters.
use vstd::prelude::*;
use vstd::utf8::encode_utf8;
use vstd::string::StringSliceAdditionalSpecFns;
use crate::governance::state::texts;

verus! {

/// The shortest title.
pub const MIN_TITLE_LENGTH: usize = 4;
/// The longest title.
pub const MAX_TITLE_LENGTH: usize = 64;
/// The shortest description.
pub const MIN_DESC_LENGTH: usize = 4;
/// The longest description.
pub const MAX_DESC_LENGTH: usize = 1024;
/// The shortest link.
pub const MIN_LINK_LENGTH: usize = 12;
/// The longest link.
pub const MAX_LINK_LENGTH: usize = 128;

/// Why a proposal's texts were refused.
#[derive(Clone, Copy, PartialEq, Eq, Structural, Debug)]
pub enum InvalidProposal {
    TitleTooShort,
    TitleTooLong,
    DescriptionTooShort,
    DescriptionTooLong,
    LinkTooShort,
    LinkTooLong,
    LinkNotWhitelisted,
    LinkUnsafe,
}

/// A byte a link may hold: an ASCII letter or digit, or one of
/// `-_:/?#@!$&()*+,;=.~[]'%`.
pub open spec fn safe_link_byte(b: u8) -> bool {
    (48 <= b <= 57) || (65 <= b <= 90) || (97 <= b <= 122)
        || b == 45 || b == 95 || b == 58 || b == 47 || b == 63 || b == 35 || b == 64 || b == 33 || b == 36
        || b == 38 || b == 40 || b == 41 || b == 42 || b == 43 || b == 44 || b == 59 || b == 61 || b == 46
        || b == 126 || b == 91 || b == 93 || b == 39 || b == 37
}

/// Whether `prefix` begins `s`.
pub open spec fn bytes_start_with(s: Seq<u8>, prefix: Seq<u8>) -> bool {
    prefix.len() <= s.len() && s.subrange(0, prefix.len() as int) == prefix
}

/// Whether the link begins with one of the whitelisted links.
pub open spec fn whitelisted(link: Seq<char>, whitelist: Seq<Seq<char>>) -> bool {
    exists|k: int| 0 <= k < whitelist.len() && bytes_start_with(encode_utf8(link), encode_utf8(#[trigger] whitelist[k]))
}

/// What is wrong with a proposal's texts, checked in this order, if
/// anything.
pub open spec fn proposal_fault(title: Seq<char>, description: Seq<char>, link: Option<Seq<char>>,
    whitelist: Seq<Seq<char>>) -> Option<InvalidProposal> {
    let t = encode_utf8(title).len();
    let d = encode_utf8(description).len();
    if t < MIN_TITLE_LENGTH {
        Some(InvalidProposal::TitleTooShort)
    } else if t > MAX_TITLE_LENGTH {
        Some(InvalidProposal::TitleTooLong)
    } else if d < MIN_DESC_LENGTH {
        Some(InvalidProposal::DescriptionTooShort)
    } else if d > MAX_DESC_LENGTH {
        Some(InvalidProposal::DescriptionTooLong)
    } else {
        match link {
            None => None,
            Some(l) => {
                let b = encode_utf8(l);
                if b.len() < MIN_LINK_LENGTH {
                    Some(InvalidProposal::LinkTooShort)
                } else if b.len() > MAX_LINK_LENGTH {
                    Some(InvalidProposal::LinkTooLong)
                } else if !whitelisted(l, whitelist) {
                    Some(InvalidProposal::LinkNotWhitelisted)
                } else if !(forall|i: int| 0 <= i < b.len() ==> safe_link_byte(#[trigger] b[i])) {
                    Some(InvalidProposal::LinkUnsafe)
                } else {
                    None
                }
            },
        }
    }
}

fn is_safe_link_byte(b: u8) -> (r: bool)
    ensures
        r == safe_link_byte(b),
{
    (48 <= b && b <= 57) || (65 <= b && b <= 90) || (97 <= b && b <= 122)
        || b == 45 || b == 95 || b == 58 || b == 47 || b == 63 || b == 35 || b == 64 || b == 33 || b == 36
        || b == 38 || b == 40 || b == 41 || b == 42 || b == 43 || b == 44 || b == 59 || b == 61 || b == 46
        || b == 126 || b == 91 || b == 93 || b == 39 || b == 37
}

fn starts_with(s: &[u8], prefix: &[u8]) -> (r: bool)
    ensures
        r == bytes_start_with(s@, prefix@),
{
    if prefix.len() > s.len() {
        return false;
    }
    let mut i: usize = 0;
    while i < prefix.len()
        invariant
            i <= prefix.len() <= s.len(),
            forall|j: int| 0 <= j < i ==> s@[j] == prefix@[j],
        decreases prefix.len() - i,
    {
        if s[i] != prefix[i] {
            assert(s@.subrange(0, prefix@.len() as int)[i as int] != prefix@[i as int]);
            return false;
        }
        i = i + 1;
    }
    assert(s@.subrange(0, prefix@.len() as int) =~= prefix@);
    true
}

/// Check a proposal's texts (see `proposal_fault`).
pub fn validate_proposal(title: &String, description: &String, link: &Option<String>, whitelist: &Vec<String>)
    -> (r: Result<(), InvalidProposal>)
    ensures
        match proposal_fault(title@, description@, match link { Some(l) => Some(l@), None => None }, texts(whitelist@)) {
            Some(f) => r == Err::<(), InvalidProposal>(f),
            None => r is Ok,
        },
{
    let t = title.as_str().as_bytes().len();
    let d = description.as_str().as_bytes().len();
    if t < MIN_TITLE_LENGTH {
        return Err(InvalidProposal::TitleTooShort);
    }
    if t > MAX_TITLE_LENGTH {
        return Err(InvalidProposal::TitleTooLong);
    }
    if d < MIN_DESC_LENGTH {
        return Err(InvalidProposal::DescriptionTooShort);
    }
    if d > MAX_DESC_LENGTH {
        return Err(InvalidProposal::DescriptionTooLong);
    }
    if let Some(l) = link {
        let b = l.as_str().as_bytes();
        if b.len() < MIN_LINK_LENGTH {
            return Err(InvalidProposal::LinkTooShort);
        }
        if b.len() > MAX_LINK_LENGTH {
            return Err(InvalidProposal::LinkTooLong);
        }
        let ghost ws = texts(whitelist@);
        let mut k: usize = 0;
        let mut found = false;
        while k < whitelist.len() && !found
            invariant
                k <= whitelist.len(),
                ws == texts(whitelist@),
                b@ == encode_utf8(l@),
                found ==> whitelisted(l@, ws),
                !found ==> forall|j: int| 0 <= j < k ==> !bytes_start_with(encode_utf8(l@), encode_utf8(#[trigger] ws[j])),
            decreases whitelist.len() - k,
        {
            let w = whitelist[k].as_str().as_bytes();
            assert(ws[k as int] == whitelist@[k as int]@);
            if starts_with(b, w) {
                found = true;
            }
            k = k + 1;
        }
        if !found {
            return Err(InvalidProposal::LinkNotWhitelisted);
        }
        let mut i: usize = 0;
        while i < b.len()
            invariant
                i <= b.len(),
                b@ == encode_utf8(l@),
                *link == Some(*l),
                whitelisted(l@, texts(whitelist@)),
                MIN_LINK_LENGTH <= b@.len() <= MAX_LINK_LENGTH,
                MIN_TITLE_LENGTH <= encode_utf8(title@).len() <= MAX_TITLE_LENGTH,
                MIN_DESC_LENGTH <= encode_utf8(description@).len() <= MAX_DESC_LENGTH,
                forall|j: int| 0 <= j < i ==> safe_link_byte(#[trigger] b@[j]),
            decreases b.len() - i,
        {
            if !is_safe_link_byte(b[i]) {
                assert(!safe_link_byte(b@[i as int]));
                return Err(InvalidProposal::LinkUnsafe);
            }
            i = i + 1;
        }
    }
    Ok(())
}

} // verus!
