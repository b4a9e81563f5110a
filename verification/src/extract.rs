//! Extraction of printable text from raw bytes.
//!
//! Binary files are given a textual view by collecting runs of printable
//! ASCII: a null byte emits the run gathered so far followed by a newline,
//! and any other non-printable byte discards the gathered run.

use vstd::prelude::*;

verus! {

/// The text extracted from `bytes` when a run of printable characters has
/// already been gathered: a null byte emits the non-empty run plus a
/// newline, a printable byte (32 to 126) extends the run, and any other
/// byte discards it. A run still open at the end of the input is dropped.
pub open spec fn extract_from(bytes: Seq<u8>, run: Seq<char>) -> Seq<char>
    decreases bytes.len(),
{
    if bytes.len() == 0 {
        Seq::empty()
    } else {
        let b = bytes[0];
        let rest = bytes.drop_first();
        if b == 0 {
            if run.len() > 0 {
                run.push('\n') + extract_from(rest, Seq::empty())
            } else {
                extract_from(rest, Seq::empty())
            }
        } else if 32 <= b <= 126 {
            extract_from(rest, run.push(b as char))
        } else {
            extract_from(rest, Seq::empty())
        }
    }
}

/// The text extracted from `bytes`, starting with nothing gathered.
pub open spec fn extracted_strings(bytes: Seq<u8>) -> Seq<char> {
    extract_from(bytes, Seq::empty())
}

/// Extract the printable, null-terminated strings out of binary data, one
/// per line.
pub fn extract_strings_from_binary(bytes: &[u8]) -> (r: String)
    ensures
        r@ == extracted_strings(bytes@),
{
    let n = bytes.len();
    let mut out: Vec<char> = Vec::new();
    let mut run: Vec<char> = Vec::new();
    let mut i: usize = 0;
    proof {
        assert(bytes@.skip(0) =~= bytes@);
    }
    while i < n
        invariant
            n == bytes@.len(),
            i <= n,
            out@ + extract_from(bytes@.skip(i as int), run@) == extracted_strings(bytes@),
        decreases n - i,
    {
        let b = bytes[i];
        let ghost prev_out = out@;
        let ghost prev_run = run@;
        proof {
            assert(bytes@.skip(i as int).len() > 0);
            assert(bytes@.skip(i as int)[0] == bytes@[i as int]);
            assert(bytes@.skip(i as int).drop_first() =~= bytes@.skip(i as int + 1));
        }
        if b == 0 {
            if run.len() > 0 {
                proof {
                    assert(extract_from(bytes@.skip(i as int), prev_run) == prev_run.push('\n')
                        + extract_from(bytes@.skip(i as int + 1), Seq::empty()));
                }
                run.push('\n');
                out.append(&mut run);
                proof {
                    assert(out@ + extract_from(bytes@.skip(i as int + 1), run@) =~= prev_out + (
                    prev_run.push('\n') + extract_from(bytes@.skip(i as int + 1), Seq::empty())));
                }
            } else {
                proof {
                    assert(extract_from(bytes@.skip(i as int), prev_run) == extract_from(
                        bytes@.skip(i as int + 1),
                        Seq::empty(),
                    ));
                    assert(prev_run =~= Seq::<char>::empty());
                }
            }
        } else if 32 <= b && b <= 126 {
            run.push(b as char);
            proof {
                assert(extract_from(bytes@.skip(i as int), prev_run) == extract_from(
                    bytes@.skip(i as int + 1),
                    prev_run.push(b as char),
                ));
            }
        } else {
            run = Vec::new();
            proof {
                assert(extract_from(bytes@.skip(i as int), prev_run) == extract_from(
                    bytes@.skip(i as int + 1),
                    Seq::empty(),
                ));
            }
        }
        i = i + 1;
    }
    proof {
        assert(bytes@.skip(n as int) =~= Seq::<u8>::empty());
        assert(out@ =~= out@ + extract_from(bytes@.skip(n as int), run@));
    }
    crate::text::chars_to_string(&out)
}

} // verus!
