//! The CSV log format's field structure: RFC-4180 splitting with quoted
//! fields, doubled-quote escapes and embedded commas or newlines, plus the
//! quick last-field accessor.

use vstd::prelude::*;
use vstd::slice::slice_subrange;

verus! {

/// Prepend a byte to the first (current) field of a field list.
pub open spec fn cons_head(b: u8, l: Seq<Seq<u8>>) -> Seq<Seq<u8>> {
    seq![seq![b] + l[0]] + l.drop_first()
}

/// The fields of `s[i..]`, given whether position `i` is inside quotes. The
/// head element completes the field open at `i`. A quote toggles quoting, a
/// doubled quote inside quotes stands for one quote byte, and a comma
/// outside quotes ends a field.
pub open spec fn fields_from(s: Seq<u8>, i: int, inq: bool) -> Seq<Seq<u8>>
    decreases s.len() - i, 1int,
{
    if i < 0 || i >= s.len() {
        seq![Seq::<u8>::empty()]
    } else if inq {
        if s[i] == 34 {
            if i + 1 < s.len() && s[i + 1] == 34 {
                cons_head(34, fields_from(s, i + 2, true))
            } else {
                fields_from(s, i + 1, false)
            }
        } else {
            cons_head(s[i], fields_from(s, i + 1, true))
        }
    } else {
        if s[i] == 34 {
            fields_from(s, i + 1, true)
        } else if s[i] == 44 {
            seq![Seq::<u8>::empty()] + fields_from(s, i + 1, false)
        } else {
            cons_head(s[i], fields_from(s, i + 1, false))
        }
    }
}

/// The unquoted fields of one CSV record.
pub open spec fn csv_fields(s: Seq<u8>) -> Seq<Seq<u8>> {
    fields_from(s, 0, false)
}

pub proof fn lemma_fields_from_len(s: Seq<u8>, i: int, inq: bool)
    ensures
        fields_from(s, i, inq).len() >= 1,
    decreases s.len() - i, 1int,
{
    if i < 0 || i >= s.len() {
    } else if inq {
        if s[i] == 34 {
            if i + 1 < s.len() && s[i + 1] == 34 {
                lemma_fields_from_len(s, i + 2, true);
            } else {
                lemma_fields_from_len(s, i + 1, false);
            }
        } else {
            lemma_fields_from_len(s, i + 1, true);
        }
    } else {
        if s[i] == 34 {
            lemma_fields_from_len(s, i + 1, true);
        } else if s[i] == 44 {
            lemma_fields_from_len(s, i + 1, false);
        } else {
            lemma_fields_from_len(s, i + 1, false);
        }
    }
}

/// Split one CSV record into its unquoted fields.
pub fn csv_split(rec: &[u8]) -> (r: Vec<Vec<u8>>)
    ensures
        r@.len() == csv_fields(rec@).len(),
        forall|k: int| 0 <= k < r@.len() ==> #[trigger] r@[k]@ == csv_fields(rec@)[k],
{
    let n = rec.len();
    let mut done: Vec<Vec<u8>> = Vec::new();
    let ghost mut gdone: Seq<Seq<u8>> = Seq::empty();
    let mut cur: Vec<u8> = Vec::new();
    let mut inq: bool = false;
    let mut i: usize = 0;
    proof {
        lemma_fields_from_len(rec@, 0, false);
        assert(gdone + cons_head_all(cur@, fields_from(rec@, 0, false)) =~= cons_head_all(
            cur@,
            fields_from(rec@, 0, false),
        ));
        assert(cons_head_all(cur@, fields_from(rec@, 0, false)) =~= fields_from(rec@, 0, false))
            by {
            assert(cur@ + fields_from(rec@, 0, false)[0] =~= fields_from(rec@, 0, false)[0]);
        }
    }
    while i < n
        invariant
            i <= n,
            n == rec@.len(),
            done@.len() == gdone.len(),
            forall|k: int| 0 <= k < gdone.len() ==> #[trigger] done@[k]@ == gdone[k],
            csv_fields(rec@) == gdone + cons_head_all(cur@, fields_from(rec@, i as int, inq)),
        decreases n - i,
    {
        let ghost rest = fields_from(rec@, i as int, inq);
        let b = rec[i];
        if inq {
            if b == 34 {
                if i + 1 < n && rec[i + 1] == 34 {
                    proof {
                        let r2 = fields_from(rec@, i + 2, true);
                        assert(rest == cons_head(34, r2));
                        assert(gdone + cons_head_all(cur@, rest) =~= gdone + cons_head_all(
                            cur@.push(34),
                            r2,
                        )) by {
                            assert(rest[0] == seq![34u8] + r2[0]);
                            assert(rest.drop_first() =~= r2.drop_first());
                            assert(cur@ + (seq![34u8] + r2[0]) =~= cur@.push(34) + r2[0]);
                        }
                    }
                    cur.push(34);
                    i = i + 2;
                } else {
                    inq = false;
                    i = i + 1;
                }
            } else {
                proof {
                    let r2 = fields_from(rec@, i + 1, true);
                    assert(rest == cons_head(rec@[i as int], r2));
                    assert(gdone + cons_head_all(cur@, rest) =~= gdone + cons_head_all(
                        cur@.push(b),
                        r2,
                    )) by {
                        assert(rest[0] == seq![b] + r2[0]);
                        assert(rest.drop_first() =~= r2.drop_first());
                        assert(cur@ + (seq![b] + r2[0]) =~= cur@.push(b) + r2[0]);
                    }
                }
                cur.push(b);
                i = i + 1;
            }
        } else {
            if b == 34 {
                inq = true;
                i = i + 1;
            } else if b == 44 {
                proof {
                    lemma_fields_from_len(rec@, i + 1, false);
                    let r2 = fields_from(rec@, i + 1, false);
                    assert(rest == seq![Seq::<u8>::empty()] + r2);
                    assert(gdone + cons_head_all(cur@, rest) =~= gdone.push(cur@)
                        + cons_head_all(Seq::<u8>::empty(), r2)) by {
                        assert(rest[0] =~= Seq::<u8>::empty());
                        assert(rest.drop_first() =~= r2);
                        assert(cur@ + Seq::<u8>::empty() =~= cur@);
                        assert(Seq::<u8>::empty() + r2[0] =~= r2[0]);
                        assert((gdone.push(cur@) + cons_head_all(Seq::<u8>::empty(), r2))[
                        gdone.len() as int] == cur@);
                    }
                }
                let finished = cur;
                cur = Vec::new();
                done.push(finished);
                proof {
                    gdone = gdone.push(finished@);
                }
                i = i + 1;
            } else {
                proof {
                    let r2 = fields_from(rec@, i + 1, false);
                    assert(rest == cons_head(rec@[i as int], r2));
                    assert(gdone + cons_head_all(cur@, rest) =~= gdone + cons_head_all(
                        cur@.push(b),
                        r2,
                    )) by {
                        assert(rest[0] == seq![b] + r2[0]);
                        assert(rest.drop_first() =~= r2.drop_first());
                        assert(cur@ + (seq![b] + r2[0]) =~= cur@.push(b) + r2[0]);
                    }
                }
                cur.push(b);
                i = i + 1;
            }
        }
    }
    proof {
        assert(fields_from(rec@, i as int, inq) =~= seq![Seq::<u8>::empty()]);
        assert(cons_head_all(cur@, fields_from(rec@, i as int, inq)) =~= seq![cur@]) by {
            assert(cur@ + Seq::<u8>::empty() =~= cur@);
        }
    }
    done.push(cur);
    assert(csv_fields(rec@) =~= gdone.push(cur@));
    done
}

/// The field list with `cur` prepended onto its head field.
pub open spec fn cons_head_all(cur: Seq<u8>, l: Seq<Seq<u8>>) -> Seq<Seq<u8>> {
    seq![cur + l[0]] + l.drop_first()
}

/// The `idx`-th (0-based) unquoted field of a CSV record, if it has one.
pub open spec fn csv_field_spec(rec: Seq<u8>, idx: int) -> Option<Seq<u8>> {
    if 0 <= idx < csv_fields(rec).len() {
        Some(csv_fields(rec)[idx])
    } else {
        None
    }
}

/// Return the `idx`-th (0-based) unquoted field of a CSV record.
pub fn csv_field(rec: &[u8], idx: usize) -> (r: Option<Vec<u8>>)
    ensures
        match r {
            Some(v) => csv_field_spec(rec@, idx as int) == Some(v@),
            None => csv_field_spec(rec@, idx as int) is None,
        },
{
    let mut fields = csv_split(rec);
    if idx < fields.len() {
        let f = fields.remove(idx);
        Some(f)
    } else {
        None
    }
}

/// The bytes after the last comma of a record, if any comma occurs: the
/// quick accessor for the final CSV field, blind to quoting.
pub open spec fn last_field_spec(rec: Seq<u8>) -> Option<Seq<u8>>
    decreases rec.len(),
{
    if rec.len() == 0 {
        None
    } else if rec[rec.len() - 1] == 44 {
        Some(Seq::<u8>::empty())
    } else {
        match last_field_spec(rec.drop_last()) {
            None => None,
            Some(f) => Some(f.push(rec[rec.len() - 1])),
        }
    }
}

/// Message of a CSV record as the text after its last comma.
pub fn message(record: &[u8]) -> (r: Option<Vec<u8>>)
    ensures
        match r {
            Some(v) => last_field_spec(record@) == Some(v@),
            None => last_field_spec(record@) is None,
        },
{
    let n = record.len();
    let mut i: usize = n;
    proof {
        assert(record@.subrange(0, n as int) =~= record@);
        assert(record@.subrange(n as int, n as int) =~= Seq::<u8>::empty());
        if last_field_spec(record@) is Some {
            let f = last_field_spec(record@).unwrap();
            assert(f + Seq::<u8>::empty() =~= f);
        }
    }
    while i > 0
        invariant
            i <= n,
            n == record@.len(),
            last_field_spec(record@) == match last_field_spec(record@.subrange(0, i as int)) {
                None => None::<Seq<u8>>,
                Some(f) => Some(f + record@.subrange(i as int, n as int)),
            },
        decreases i,
    {
        let ghost pre = record@.subrange(0, i as int);
        assert(pre.drop_last() =~= record@.subrange(0, i - 1));
        if record[i - 1] == 44 {
            let tail = crate::bytes_util::copy_bytes(slice_subrange(record, i, n));
            proof {
                assert(Seq::<u8>::empty() + record@.subrange(i as int, n as int) =~= record@
                    .subrange(i as int, n as int));
            }
            return Some(tail);
        }
        proof {
            if last_field_spec(record@.subrange(0, i - 1)) is Some {
                let f = last_field_spec(record@.subrange(0, i - 1)).unwrap();
                assert(pre[pre.len() - 1] == record@[i - 1]);
                assert(f.push(record@[i - 1]) + record@.subrange(i as int, n as int) =~= f
                    + record@.subrange(i - 1, n as int));
            }
        }
        i = i - 1;
    }
    assert(record@.subrange(0, 0) =~= Seq::<u8>::empty());
    None
}

} // verus!
