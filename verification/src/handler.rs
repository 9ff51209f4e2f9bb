//! The pure decisions of the update handler: which attachment of a
//! message to process, whether a remote file path carries a processable
//! image extension, and the name under which an accepted image is stored.
//! The transport layer performs the surrounding I/O and calls these for
//! every decision.

use vstd::prelude::*;
use vstd::string::StrSliceExecFns;
use vstd::string::StringExecFns;

use crate::contract::{Message, PhotoSize};

verus! {

/// The size a photo variant counts as: its reported file size, or zero
/// when none is reported.
pub open spec fn size_of(p: PhotoSize) -> int {
    match p.file_size {
        Some(s) => s as int,
        None => 0,
    }
}

/// The photo variant the handler picks among the first `n`: the one with
/// the largest size, where a later variant displaces an earlier one even
/// on an equal size (so the last largest wins).
pub open spec fn photo_pick(photos: Seq<PhotoSize>, n: int) -> int
    decreases n,
{
    if n <= 1 {
        0
    } else {
        let p = photo_pick(photos, n - 1);
        if size_of(photos[n - 1]) >= size_of(photos[p]) {
            n - 1
        } else {
            p
        }
    }
}

/// The file id a message's image is fetched by: the document's, if the
/// message carries a document; else the largest photo variant's; `None`
/// when the message has no sender or no image.
pub open spec fn chosen_file_id(msg: Message) -> Option<Seq<char>> {
    if msg.from is None {
        None
    } else {
        match msg.document {
            Some(doc) => Some(doc.file_id@),
            None => match msg.photo {
                Some(photos) => if photos@.len() == 0 {
                    None
                } else {
                    Some(photos@[photo_pick(photos@, photos@.len() as int)].file_id@)
                },
                None => None,
            },
        }
    }
}

/// Picks the file id of the image a message carries, if any: a document's
/// file id takes precedence; otherwise the photo variant with the largest
/// reported size (the last one on a tie) is picked. A message without a
/// sender or without an image yields `None`.
pub fn best_file_id(msg: &Message) -> (r: Option<String>)
    ensures
        match r {
            Some(s) => chosen_file_id(*msg) == Some(s@),
            None => chosen_file_id(*msg) is None,
        },
{
    if msg.from.is_none() {
        return None;
    }
    match &msg.document {
        Some(doc) => Some(doc.file_id.clone()),
        None => match &msg.photo {
            Some(photos) => {
                if photos.len() == 0 {
                    return None;
                }
                let mut best: usize = 0;
                let mut best_size: i64 = match photos[0].file_size {
                    Some(s) => s,
                    None => 0,
                };
                let mut i: usize = 1;
                while i < photos.len()
                    invariant
                        1 <= i <= photos@.len(),
                        best < i,
                        best == photo_pick(photos@, i as int),
                        best_size == size_of(photos@[best as int]),
                    decreases photos@.len() - i,
                {
                    let s = match photos[i].file_size {
                        Some(s) => s,
                        None => 0,
                    };
                    if s >= best_size {
                        best = i;
                        best_size = s;
                    }
                    i = i + 1;
                }
                Some(photos[best].file_id.clone())
            },
            None => None,
        },
    }
}

/// ASCII lowercasing of one character.
pub open spec fn lower_char(c: char) -> char {
    if 'A' <= c && c <= 'Z' {
        ((c as u8) + 32) as char
    } else {
        c
    }
}

/// ASCII lowercasing of a character sequence.
pub open spec fn lower_ascii(s: Seq<char>) -> Seq<char> {
    s.map_values(|c: char| lower_char(c))
}

/// The extension of a file path: the characters after the last dot, or
/// the whole path when it holds no dot.
pub open spec fn ext_of(p: Seq<char>) -> Seq<char>
    decreases p.len(),
{
    if p.len() == 0 {
        p
    } else if p.last() == '.' {
        Seq::empty()
    } else {
        ext_of(p.drop_last()).push(p.last())
    }
}

/// Whether an extension names a processable image format, ignoring ASCII
/// case.
pub open spec fn processable_ext(e: Seq<char>) -> bool {
    lower_ascii(e) == "png"@ || lower_ascii(e) == "jpg"@ || lower_ascii(e) == "jpeg"@
}

/// The index where the extension starts: right after the last dot, or
/// zero when the path holds none.
pub open spec fn ext_start(p: Seq<char>) -> int
    decreases p.len(),
{
    if p.len() == 0 {
        0
    } else if p.last() == '.' {
        p.len() as int
    } else {
        ext_start(p.drop_last())
    }
}

/// The extension is the path from `ext_start` on.
pub proof fn lemma_ext_of_subrange(p: Seq<char>)
    ensures
        0 <= ext_start(p) <= p.len(),
        ext_of(p) == p.subrange(ext_start(p), p.len() as int),
    decreases p.len(),
{
    if p.len() == 0 {
        assert(ext_of(p) =~= p.subrange(0, 0));
    } else if p.last() == '.' {
        assert(ext_of(p) =~= p.subrange(p.len() as int, p.len() as int));
    } else {
        lemma_ext_of_subrange(p.drop_last());
        assert(p.drop_last().subrange(ext_start(p.drop_last()), p.len() - 1) =~= p.subrange(
            ext_start(p),
            p.len() - 1,
        ));
        assert(p.subrange(ext_start(p), p.len() - 1).push(p.last()) =~= p.subrange(
            ext_start(p),
            p.len() as int,
        ));
    }
}

/// Whether the lowercased characters of `s` are exactly `lit`.
fn matches_lower(s: &str, lit: &str) -> (r: bool)
    ensures
        r == (lower_ascii(s@) == lit@),
{
    let ns = s.unicode_len();
    let nl = lit.unicode_len();
    if ns != nl {
        proof {
            assert(lower_ascii(s@).len() == s@.len());
        }
        return false;
    }
    let mut i: usize = 0;
    while i < ns
        invariant
            i <= ns,
            ns == s@.len(),
            ns == lit@.len(),
            forall|j: int| 0 <= j < i ==> lower_char(s@[j]) == lit@[j],
        decreases ns - i,
    {
        let c = s.get_char(i);
        let lc = if 'A' <= c && c <= 'Z' {
            ((c as u8) + 32) as char
        } else {
            c
        };
        proof {
            assert(lc == lower_char(s@[i as int]));
        }
        if lc != lit.get_char(i) {
            proof {
                assert(lower_ascii(s@)[i as int] != lit@[i as int]);
            }
            return false;
        }
        i = i + 1;
    }
    proof {
        assert(lower_ascii(s@) =~= lit@);
    }
    true
}

/// Decides whether a remote file path names a processable image: its
/// extension (after the last dot, the whole name when it has no dot) must
/// read `png`, `jpg` or `jpeg` ignoring ASCII case. Returns the path
/// together with the lowercased extension, or `None` for everything else
/// — a missing path included.
pub fn get_file_path_if_processable(file_path: Option<String>) -> (r: Option<(String, String)>)
    ensures
        match file_path {
            None => r is None,
            Some(p) => {
                if processable_ext(ext_of(p@)) {
                    r matches Some(pair) && pair.0@ == p@ && pair.1@ == lower_ascii(ext_of(p@))
                } else {
                    r is None
                }
            },
        },
{
    let p = match file_path {
        None => {
            return None;
        },
        Some(p) => p,
    };
    let n = p.as_str().unicode_len();
    let mut start: usize = 0;
    let mut i: usize = 0;
    proof {
        assert(p@.take(0) =~= Seq::<char>::empty());
    }
    while i < n
        invariant
            i <= n,
            n == p@.len(),
            start == ext_start(p@.take(i as int)),
            start <= i,
        decreases n - i,
    {
        proof {
            assert(p@.take(i + 1 as int).drop_last() =~= p@.take(i as int));
            assert(p@.take(i + 1 as int).last() == p@[i as int]);
        }
        if p.as_str().get_char(i) == '.' {
            start = i + 1;
        }
        i = i + 1;
    }
    proof {
        assert(p@.take(n as int) =~= p@);
        lemma_ext_of_subrange(p@);
    }
    let ext = p.as_str().substring_char(start, n);
    proof {
        assert(ext@ == ext_of(p@));
    }
    if matches_lower(ext, "png") {
        let low = String::from_str("png");
        return Some((p, low));
    }
    if matches_lower(ext, "jpg") {
        let low = String::from_str("jpg");
        return Some((p, low));
    }
    if matches_lower(ext, "jpeg") {
        let low = String::from_str("jpeg");
        return Some((p, low));
    }
    None
}

/// The name an accepted image is stored under: its file id, a dot, and
/// its lowercased extension.
pub fn storage_file_name(file_id: &str, ext: &str) -> (r: String)
    ensures
        r@ == file_id@ + "."@ + ext@,
{
    String::from_str(file_id).concat(".").concat(ext)
}

} // verus!
