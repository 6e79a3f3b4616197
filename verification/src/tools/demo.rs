//! The demo's helpers: fixed-size hashes from what the server returned,
//! and the text of its entry table.
use vstd::prelude::*;
use crate::bytes::array32;
use crate::hex_codec::{hex_encode, hex_encoding};
use crate::proofs::hash_seqs;
use crate::sdk::client::Entry;
use crate::text::{
    decimal_text, pad_left, pad_right, push_padded_left, push_padded_right, push_text,
    push_zero_padded, zero_padded,
};
use crate::tools::check::all_hash_sized;
use crate::wire::byte_seqs;

verus! {

/// The text `String::from_utf8_lossy` makes of `bytes`.
pub uninterp spec fn utf8_lossy(bytes: Seq<u8>) -> Seq<char>;

/// Calls `String::from_utf8_lossy`.
///
/// Trusted: the text is the one named `utf8_lossy` of the bytes.
#[verifier::external_body]
fn utf8_lossy_text(bytes: &[u8]) -> (s: String)
    ensures
        s@ == utf8_lossy(bytes@),
{
    String::from_utf8_lossy(bytes).into_owned()
}

/// A 32-byte hash from bytes that have exactly 32.
pub fn to32(b: &[u8]) -> (h: [u8; 32])
    requires
        b@.len() == 32,
    ensures
        h@ == b@,
{
    match array32(b) {
        Some(h) => h,
        None => {
            assert(false);
            [0u8; 32]
        },
    }
}

/// The nodes of a proof as hashes, when each has 32 bytes.
pub fn proof32(p: &Vec<Vec<u8>>) -> (out: Vec<[u8; 32]>)
    requires
        all_hash_sized(p@),
    ensures
        hash_seqs(out@) == byte_seqs(p@),
{
    let mut out: Vec<[u8; 32]> = Vec::new();
    let mut i: usize = 0;
    while i < p.len()
        invariant
            i <= p@.len(),
            all_hash_sized(p@),
            out@.len() == i,
            forall|j: int| 0 <= j < i ==> #[trigger] out@[j]@ == p@[j]@,
        decreases p@.len() - i,
    {
        assert(p@[i as int]@.len() == 32);
        out.push(to32(p[i].as_slice()));
        i += 1;
    }
    assert(hash_seqs(out@) =~= byte_seqs(p@));
    out
}

/// The magnitude of a timestamp in nanoseconds.
pub open spec fn abs_ns(ts_ns: i64) -> nat {
    if ts_ns >= 0 {
        ts_ns as nat
    } else {
        (-ts_ns) as nat
    }
}

/// The time-of-day text of a timestamp: hours, minutes and seconds of the
/// day and milliseconds, as `HH:MM:SS.mmmZ` (the sign is dropped).
pub open spec fn time_text(ts_ns: i64) -> Seq<char> {
    let secs = abs_ns(ts_ns) / 1_000_000_000;
    let ms = (abs_ns(ts_ns) % 1_000_000_000) / 1_000_000;
    zero_padded((secs % 86400) / 3600, 2) + ":"@ + zero_padded((secs % 3600) / 60, 2) + ":"@
        + zero_padded(secs % 60, 2) + "."@ + zero_padded(ms, 3) + "Z"@
}

/// The time-of-day text of a timestamp.
pub fn fmt_time(ts_ns: i64) -> (s: String)
    ensures
        s@ == time_text(ts_ns),
{
    let abs: u64 = if ts_ns >= 0 {
        ts_ns as u64
    } else {
        ((-(ts_ns + 1)) as u64) + 1
    };
    assert(abs == abs_ns(ts_ns));
    let secs = abs / 1_000_000_000;
    let ms = (abs % 1_000_000_000) / 1_000_000;
    let h = (secs % 86400) / 3600;
    let m = (secs % 3600) / 60;
    let sec = secs % 60;
    let mut s = String::new();
    push_zero_padded(&mut s, h, 2);
    push_text(&mut s, ":");
    push_zero_padded(&mut s, m, 2);
    push_text(&mut s, ":");
    push_zero_padded(&mut s, sec, 2);
    push_text(&mut s, ".");
    push_zero_padded(&mut s, ms, 3);
    push_text(&mut s, "Z");
    assert(s@ =~= time_text(ts_ns));
    s
}

/// The short text of a hash: its first 16 hex digits and an ellipsis.
pub open spec fn hash_text(bytes: Seq<u8>) -> Seq<char> {
    let hex = hex_encoding(bytes);
    hex.take(if hex.len() < 16 {
        hex.len() as int
    } else {
        16
    }) + "…"@
}

/// The short text of a hash.
pub fn fmt_hash(bytes: &[u8]) -> (s: String)
    ensures
        s@ == hash_text(bytes@),
{
    let n: usize = if bytes.len() < 8 {
        bytes.len()
    } else {
        8
    };
    let mut head: Vec<u8> = Vec::new();
    let mut i: usize = 0;
    while i < n
        invariant
            n <= bytes@.len(),
            i <= n,
            head@ == bytes@.take(i as int),
        decreases n - i,
    {
        head.push(bytes[i]);
        i += 1;
        assert(head@ =~= bytes@.take(i as int));
    }
    let mut s = hex_encode(head.as_slice());
    let ghost hex = hex_encoding(bytes@);
    let ghost k: int = if hex.len() < 16 {
        hex.len() as int
    } else {
        16
    };
    assert(hex_encoding(head@) =~= hex.take(k));
    push_text(&mut s, "…");
    s
}

/// The header of the entry table, with a proof column when asked.
pub open spec fn header_text(show_proof: bool) -> Seq<char> {
    let h = pad_left("Seq"@, 4) + "  "@ + pad_right("Key"@, 20) + "  "@ + pad_right("Data"@, 20)
        + "  "@ + pad_right("Time"@, 20) + "  "@ + pad_right("Leaf Hash"@, 18);
    if show_proof {
        h + "  Proof"@
    } else {
        h
    }
}

/// The header of the entry table.
pub fn table_header(show_proof: bool) -> (s: String)
    ensures
        s@ == header_text(show_proof),
{
    let mut s = String::new();
    push_padded_left(&mut s, "Seq", 4);
    push_text(&mut s, "  ");
    push_padded_right(&mut s, "Key", 20);
    push_text(&mut s, "  ");
    push_padded_right(&mut s, "Data", 20);
    push_text(&mut s, "  ");
    push_padded_right(&mut s, "Time", 20);
    push_text(&mut s, "  ");
    push_padded_right(&mut s, "Leaf Hash", 18);
    if show_proof {
        push_text(&mut s, "  Proof");
    }
    assert(s@ =~= header_text(show_proof));
    s
}

/// The table row of an entry, followed by its proof column.
pub open spec fn row_text(e: Entry, proof_col: Seq<char>) -> Seq<char> {
    pad_left(decimal_text(e.seq as nat), 4) + "  "@ + pad_right(utf8_lossy(e.key@), 20) + "  "@
        + pad_right(utf8_lossy(e.data@), 20) + "  "@ + pad_right(time_text(e.timestamp_ns), 20)
        + "  "@ + pad_right(hash_text(e.leaf_hash@), 18) + proof_col
}

/// The table row of an entry.
pub fn entry_row(e: &Entry, proof_col: &str) -> (s: String)
    ensures
        s@ == row_text(*e, proof_col@),
{
    let seq = crate::text::decimal(e.seq);
    let key = utf8_lossy_text(e.key.as_slice());
    let data = utf8_lossy_text(e.data.as_slice());
    let time = fmt_time(e.timestamp_ns);
    let hash = fmt_hash(e.leaf_hash.as_slice());
    let mut s = String::new();
    push_padded_left(&mut s, seq.as_str(), 4);
    push_text(&mut s, "  ");
    push_padded_right(&mut s, key.as_str(), 20);
    push_text(&mut s, "  ");
    push_padded_right(&mut s, data.as_str(), 20);
    push_text(&mut s, "  ");
    push_padded_right(&mut s, time.as_str(), 20);
    push_text(&mut s, "  ");
    push_padded_right(&mut s, hash.as_str(), 18);
    push_text(&mut s, proof_col);
    assert(s@ =~= row_text(*e, proof_col@));
    s
}

/// The proof column of a row: empty when proofs are not shown, else
/// whether the entry's proof verified.
pub fn proof_column(shown: bool, verified: bool) -> (col: &'static str)
    ensures
        col@ == if !shown {
            ""@
        } else if verified {
            "  OK"@
        } else {
            "  FAIL"@
        },
{
    if !shown {
        ""
    } else if verified {
        "  OK"
    } else {
        "  FAIL"
    }
}

/// "entry" for one, "entries" otherwise.
pub fn noun(count: usize) -> (w: &'static str)
    ensures
        w@ == if count == 1 {
            "entry"@
        } else {
            "entries"@
        },
{
    if count == 1 {
        "entry"
    } else {
        "entries"
    }
}

} // verus!
