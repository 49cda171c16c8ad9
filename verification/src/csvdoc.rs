//! The tabular entries document.
//!
//! The entries feed is a comma-separated table.  Records are lines ended by
//! `\n`, with one trailing carriage return of a line stripped; fields are
//! separated by commas; a field may be double-quoted — the quotes open only
//! at the start of a field — and inside quotes commas, newlines and
//! carriage returns are literal while `""` encodes one quote character.
//! A blank line, including one holding nothing but an empty quoted field,
//! carries no record.  An unterminated quote runs to the end of the
//! document.  The importer addresses fields positionally, so a record is
//! simply the sequence of its fields.

use vstd::prelude::*;

use crate::text::{chars_of, prefix_chars, string_of};

verus! {

/// A field with its trailing carriage return, if any, stripped.
pub open spec fn strip_cr(s: Seq<char>) -> Seq<char> {
    if s.len() > 0 && s.last() == '\r' {
        s.drop_last()
    } else {
        s
    }
}

/// Closes a line: the last field loses one trailing carriage return, and
/// the record joins the document unless the whole line was blank.
pub open spec fn csv_line_end(
    fld: Seq<char>,
    rec: Seq<Seq<char>>,
    acc: Seq<Seq<Seq<char>>>,
) -> Seq<Seq<Seq<char>>> {
    let f = strip_cr(fld);
    if rec.len() == 0 && f.len() == 0 {
        acc
    } else {
        acc.push(rec.push(f))
    }
}

/// The table reader, character by character: `inq` says whether a quoted
/// field is open, `fld` is the field being read, `rec` the fields of the
/// current record, `acc` the records read so far.
pub open spec fn csv_machine(
    s: Seq<char>,
    inq: bool,
    fld: Seq<char>,
    rec: Seq<Seq<char>>,
    acc: Seq<Seq<Seq<char>>>,
) -> Seq<Seq<Seq<char>>>
    decreases s.len(),
{
    if s.len() == 0 {
        csv_line_end(fld, rec, acc)
    } else {
        let c = s[0];
        let rest = s.drop_first();
        if inq {
            if c == '"' {
                if rest.len() > 0 && rest[0] == '"' {
                    csv_machine(rest.drop_first(), true, fld.push('"'), rec, acc)
                } else {
                    csv_machine(rest, false, fld, rec, acc)
                }
            } else {
                csv_machine(rest, true, fld.push(c), rec, acc)
            }
        } else {
            if c == '"' && fld.len() == 0 {
                csv_machine(rest, true, fld, rec, acc)
            } else if c == ',' {
                csv_machine(rest, false, Seq::empty(), rec.push(fld), acc)
            } else if c == '\n' {
                csv_machine(rest, false, Seq::empty(), Seq::empty(), csv_line_end(fld, rec, acc))
            } else {
                csv_machine(rest, false, fld.push(c), rec, acc)
            }
        }
    }
}

/// The rows of a tabular document: its records, each the sequence of its
/// fields.
pub open spec fn spec_parse_csv(text: Seq<char>) -> Seq<Seq<Seq<char>>> {
    csv_machine(text, false, Seq::empty(), Seq::empty(), Seq::empty())
}

proof fn lemma_csv_machine_len(
    s: Seq<char>,
    inq: bool,
    fld: Seq<char>,
    rec: Seq<Seq<char>>,
    acc: Seq<Seq<Seq<char>>>,
)
    ensures
        csv_machine(s, inq, fld, rec, acc).len() <= acc.len() + s.len() + 1,
    decreases s.len(),
{
    if s.len() > 0 {
        let c = s[0];
        let rest = s.drop_first();
        if inq {
            if c == '"' {
                if rest.len() > 0 && rest[0] == '"' {
                    lemma_csv_machine_len(rest.drop_first(), true, fld.push('"'), rec, acc);
                } else {
                    lemma_csv_machine_len(rest, false, fld, rec, acc);
                }
            } else {
                lemma_csv_machine_len(rest, true, fld.push(c), rec, acc);
            }
        } else {
            if c == '"' && fld.len() == 0 {
                lemma_csv_machine_len(rest, true, fld, rec, acc);
            } else if c == ',' {
                lemma_csv_machine_len(rest, false, Seq::empty(), rec.push(fld), acc);
            } else if c == '\n' {
                lemma_csv_machine_len(
                    rest,
                    false,
                    Seq::empty(),
                    Seq::empty(),
                    csv_line_end(fld, rec, acc),
                );
            } else {
                lemma_csv_machine_len(rest, false, fld.push(c), rec, acc);
            }
        }
    }
}

/// A document of `n` characters has at most `n + 1` rows; the importer's
/// counters therefore fit their 32-bit ledger columns.
pub proof fn lemma_parse_csv_len(text: Seq<char>)
    ensures
        spec_parse_csv(text).len() <= text.len() + 1,
{
    lemma_csv_machine_len(text, false, Seq::empty(), Seq::empty(), Seq::empty());
}

/// The field with one trailing carriage return stripped, as `strip_cr`
/// describes.
fn strip_cr_exec(fld: Vec<char>) -> (r: Vec<char>)
    ensures
        r@ == strip_cr(fld@),
{
    if fld.len() > 0 && fld[fld.len() - 1] == '\r' {
        proof {
            assert(fld@.take(fld@.len() - 1) =~= fld@.drop_last());
        }
        prefix_chars(&fld, fld.len() - 1)
    } else {
        fld
    }
}

/// Parses a tabular document into its rows of fields, exactly as
/// `spec_parse_csv` describes.
pub fn parse_csv(text: &str) -> (r: Vec<Vec<String>>)
    ensures
        r.deep_view() == spec_parse_csv(text@),
{
    let cs = chars_of(text);
    let ghost full = cs@;
    let mut out: Vec<Vec<String>> = Vec::new();
    let mut rec: Vec<String> = Vec::new();
    let mut fld: Vec<char> = Vec::new();
    let mut inq: bool = false;
    let mut i: usize = 0;
    proof {
        assert(full.skip(0) =~= full);
        assert(out.deep_view() =~~= Seq::<Seq<Seq<char>>>::empty());
        assert(rec.deep_view() =~~= Seq::<Seq<char>>::empty());
        assert(spec_parse_csv(text@) == csv_machine(
            full.skip(0),
            false,
            fld@,
            rec.deep_view(),
            out.deep_view(),
        ));
    }
    while i < cs.len()
        invariant
            0 <= i <= cs.len(),
            full == cs@,
            spec_parse_csv(text@) == csv_machine(
                full.skip(i as int),
                inq,
                fld@,
                rec.deep_view(),
                out.deep_view(),
            ),
        decreases cs.len() - i,
    {
        let ghost rem = full.skip(i as int);
        proof {
            assert(rem[0] == full[i as int]);
            assert(rem.drop_first() =~= full.skip(i as int + 1));
        }
        let c = cs[i];
        if inq {
            if c == '"' {
                if i + 1 < cs.len() && cs[i + 1] == '"' {
                    proof {
                        assert(rem.drop_first()[0] == full[i as int + 1]);
                        assert(rem.drop_first().drop_first() =~= full.skip(i as int + 2));
                    }
                    fld.push('"');
                    i += 2;
                } else {
                    inq = false;
                    i += 1;
                }
            } else {
                fld.push(c);
                i += 1;
            }
        } else {
            if c == '"' && fld.len() == 0 {
                inq = true;
                i += 1;
            } else if c == ',' {
                let ghost old_rec = rec.deep_view();
                rec.push(string_of(&fld));
                proof {
                    assert(rec.deep_view() =~~= old_rec.push(fld@));
                }
                fld = Vec::new();
                i += 1;
            } else if c == '\n' {
                let ghost old_out = out.deep_view();
                let ghost old_rec = rec.deep_view();
                let ghost old_fld = fld@;
                let stripped = strip_cr_exec(fld);
                if rec.len() == 0 && stripped.len() == 0 {
                    proof {
                        assert(csv_line_end(old_fld, old_rec, old_out) == old_out);
                    }
                } else {
                    rec.push(string_of(&stripped));
                    proof {
                        assert(rec.deep_view() =~~= old_rec.push(strip_cr(old_fld)));
                    }
                    out.push(rec);
                    proof {
                        assert(out.deep_view() =~~= old_out.push(old_rec.push(strip_cr(old_fld))));
                        assert(out.deep_view() =~~= csv_line_end(old_fld, old_rec, old_out));
                    }
                }
                rec = Vec::new();
                fld = Vec::new();
                proof {
                    assert(rec.deep_view() =~~= Seq::<Seq<char>>::empty());
                }
                i += 1;
            } else {
                fld.push(c);
                i += 1;
            }
        }
    }
    proof {
        assert(full.skip(cs@.len() as int) =~= Seq::<char>::empty());
    }
    let ghost old_out = out.deep_view();
    let ghost old_rec = rec.deep_view();
    let ghost old_fld = fld@;
    let stripped = strip_cr_exec(fld);
    if rec.len() == 0 && stripped.len() == 0 {
        proof {
            assert(csv_line_end(old_fld, old_rec, old_out) == old_out);
        }
    } else {
        rec.push(string_of(&stripped));
        proof {
            assert(rec.deep_view() =~~= old_rec.push(strip_cr(old_fld)));
        }
        out.push(rec);
        proof {
            assert(out.deep_view() =~~= old_out.push(old_rec.push(strip_cr(old_fld))));
            assert(out.deep_view() =~~= csv_line_end(old_fld, old_rec, old_out));
        }
    }
    out
}

} // verus!
