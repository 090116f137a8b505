//! Interpreting the rows of byte fields that the reader hands over: the
//! header names the four columns (case-insensitively), every later row
//! parses into a `TransactionRow` or is dropped, as the permissive input
//! policy asks.
use crate::amount::{decode, decode_spec};
use crate::csvio::{csv_rows, fields_view, read_rows, rows_view};
use crate::digits::{all_digits, digits_value, parse_digits};
use crate::ledger::{TransactionRow, TransactionType};
use vstd::prelude::*;

verus! {

/// The header key "type".
pub open spec fn name_type() -> Seq<u8> {
    seq![116u8, 121u8, 112u8, 101u8]
}

/// The header key "client".
pub open spec fn name_client() -> Seq<u8> {
    seq![99u8, 108u8, 105u8, 101u8, 110u8, 116u8]
}

/// The header key "tx".
pub open spec fn name_tx() -> Seq<u8> {
    seq![116u8, 120u8]
}

/// The header key "amount".
pub open spec fn name_amount() -> Seq<u8> {
    seq![97u8, 109u8, 111u8, 117u8, 110u8, 116u8]
}

/// The lowercase name of a transaction kind, as the type column spells it.
pub open spec fn kind_name(k: TransactionType) -> Seq<u8> {
    match k {
        TransactionType::Deposit => seq![100u8, 101u8, 112u8, 111u8, 115u8, 105u8, 116u8],
        TransactionType::Withdrawal => seq![
            119u8,
            105u8,
            116u8,
            104u8,
            100u8,
            114u8,
            97u8,
            119u8,
            97u8,
            108u8,
        ],
        TransactionType::Dispute => seq![100u8, 105u8, 115u8, 112u8, 117u8, 116u8, 101u8],
        TransactionType::Resolve => seq![114u8, 101u8, 115u8, 111u8, 108u8, 118u8, 101u8],
        TransactionType::Chargeback => seq![
            99u8,
            104u8,
            97u8,
            114u8,
            103u8,
            101u8,
            98u8,
            97u8,
            99u8,
            107u8,
        ],
    }
}

/// An ASCII upper-case letter folded to lower case; any other byte as it is.
pub open spec fn lower_byte(b: u8) -> u8 {
    if 65 <= b && b <= 90 {
        (b + 32) as u8
    } else {
        b
    }
}

/// A byte string folded to ASCII lower case.
pub open spec fn ascii_lower(s: Seq<u8>) -> Seq<u8> {
    s.map_values(|b: u8| lower_byte(b))
}

/// Fold a byte string to ASCII lower case.
fn lower_vec(s: &Vec<u8>) -> (r: Vec<u8>)
    ensures
        r@ == ascii_lower(s@),
{
    let mut r: Vec<u8> = Vec::new();
    let mut i: usize = 0;
    while i < s.len()
        invariant
            0 <= i <= s@.len(),
            r@ == ascii_lower(s@.subrange(0, i as int)),
        decreases s@.len() - i,
    {
        let b = s[i];
        if 65 <= b && b <= 90 {
            r.push(b + 32);
        } else {
            r.push(b);
        }
        proof {
            assert(r@ =~= ascii_lower(s@.subrange(0, i + 1)));
        }
        i = i + 1;
    }
    proof {
        assert(s@.subrange(0, s@.len() as int) =~= s@);
    }
    r
}

/// Compare two byte strings.
fn bytes_eq(a: &Vec<u8>, b: &Vec<u8>) -> (r: bool)
    ensures
        r == (a@ == b@),
{
    if a.len() != b.len() {
        return false;
    }
    let mut i: usize = 0;
    while i < a.len()
        invariant
            0 <= i <= a@.len(),
            a@.len() == b@.len(),
            forall|j: int| 0 <= j < i ==> a@[j] == b@[j],
        decreases a@.len() - i,
    {
        if a[i] != b[i] {
            return false;
        }
        i = i + 1;
    }
    proof {
        assert(a@ =~= b@);
    }
    true
}

/// The kind a type field denotes: one of the five names, exactly and in
/// lower case.
pub open spec fn parse_kind_spec(f: Seq<u8>) -> Option<TransactionType> {
    if f == kind_name(TransactionType::Deposit) {
        Some(TransactionType::Deposit)
    } else if f == kind_name(TransactionType::Withdrawal) {
        Some(TransactionType::Withdrawal)
    } else if f == kind_name(TransactionType::Dispute) {
        Some(TransactionType::Dispute)
    } else if f == kind_name(TransactionType::Resolve) {
        Some(TransactionType::Resolve)
    } else if f == kind_name(TransactionType::Chargeback) {
        Some(TransactionType::Chargeback)
    } else {
        None
    }
}

/// Build the byte string of a kind's name.
fn kind_name_vec(k: TransactionType) -> (v: Vec<u8>)
    ensures
        v@ == kind_name(k),
{
    let v: Vec<u8> = match k {
        TransactionType::Deposit => vec![100u8, 101, 112, 111, 115, 105, 116],
        TransactionType::Withdrawal => vec![119u8, 105, 116, 104, 100, 114, 97, 119, 97, 108],
        TransactionType::Dispute => vec![100u8, 105, 115, 112, 117, 116, 101],
        TransactionType::Resolve => vec![114u8, 101, 115, 111, 108, 118, 101],
        TransactionType::Chargeback => vec![99u8, 104, 97, 114, 103, 101, 98, 97, 99, 107],
    };
    proof {
        assert(v@ =~= kind_name(k));
    }
    v
}

/// Parse a type field into a transaction kind.
fn parse_kind(f: &Vec<u8>) -> (r: Option<TransactionType>)
    ensures
        r == parse_kind_spec(f@),
{
    if bytes_eq(f, &kind_name_vec(TransactionType::Deposit)) {
        Some(TransactionType::Deposit)
    } else if bytes_eq(f, &kind_name_vec(TransactionType::Withdrawal)) {
        Some(TransactionType::Withdrawal)
    } else if bytes_eq(f, &kind_name_vec(TransactionType::Dispute)) {
        Some(TransactionType::Dispute)
    } else if bytes_eq(f, &kind_name_vec(TransactionType::Resolve)) {
        Some(TransactionType::Resolve)
    } else if bytes_eq(f, &kind_name_vec(TransactionType::Chargeback)) {
        Some(TransactionType::Chargeback)
    } else {
        None
    }
}

/// The unsigned integer an id field denotes, when it is all digits and at
/// most `max`.
pub open spec fn parse_uint_spec(s: Seq<u8>, max: int) -> Option<int> {
    if s.len() > 0 && all_digits(s) && digits_value(s) <= max {
        Some(digits_value(s))
    } else {
        None
    }
}

/// Parse an id field, bounded by `max`.
fn parse_uint(s: &Vec<u8>, max: u64) -> (r: Option<u64>)
    ensures
        match r {
            Some(v) => parse_uint_spec(s@, max as int) == Some(v as int),
            None => parse_uint_spec(s@, max as int) is None,
        },
{
    match parse_digits(s) {
        Some(v) => if v <= max {
            Some(v)
        } else {
            None
        },
        None => None,
    }
}

/// Where the header puts the four columns.
#[derive(Clone, Copy, PartialEq, Eq, Structural, Debug)]
pub struct Columns {
    pub kind: usize,
    pub client: usize,
    pub tx: usize,
    pub amount: usize,
}

/// The position of the first header field whose ASCII-lowered text is
/// `name`.
pub open spec fn column_index(header: Seq<Seq<u8>>, name: Seq<u8>) -> Option<int> {
    header.map_values(|f: Seq<u8>| ascii_lower(f)).index_of_first(name)
}

/// Find the first header field that names `name`, case-insensitively.
fn find_column(header: &Vec<Vec<u8>>, name: &Vec<u8>) -> (r: Option<usize>)
    ensures
        match r {
            Some(i) => column_index(fields_view(header@), name@) == Some(i as int),
            None => column_index(fields_view(header@), name@) is None,
        },
{
    let ghost lowered = fields_view(header@).map_values(|f: Seq<u8>| ascii_lower(f));
    let mut i: usize = 0;
    while i < header.len()
        invariant
            0 <= i <= header@.len(),
            lowered == fields_view(header@).map_values(|f: Seq<u8>| ascii_lower(f)),
            forall|j: int| 0 <= j < i ==> lowered[j] != name@,
        decreases header@.len() - i,
    {
        let low = lower_vec(&header[i]);
        if bytes_eq(&low, name) {
            proof {
                lowered.index_of_first_ensures(name@);
                assert(lowered[i as int] == name@);
                assert(lowered.contains(name@)) by {
                    assert(lowered[i as int] == name@);
                }
                let f = lowered.index_of_first(name@).unwrap();
                assert(f == i) by {
                    if f < i {
                        assert(lowered[f] != name@);
                    }
                    if f > i {
                        assert(lowered[i as int] != name@);
                    }
                }
            }
            return Some(i);
        }
        i = i + 1;
    }
    proof {
        lowered.index_of_first_ensures(name@);
        if lowered.contains(name@) {
            let w = choose|w: int| 0 <= w < lowered.len() && lowered[w] == name@;
            assert(lowered[w] != name@);
        }
    }
    None
}

/// The four column positions a header row defines, when it names them all.
pub open spec fn columns_spec(header: Seq<Seq<u8>>) -> Option<Columns> {
    if column_index(header, name_type()) is Some && column_index(header, name_client()) is Some
        && column_index(header, name_tx()) is Some && column_index(header, name_amount())
        is Some {
        Some(
            Columns {
                kind: column_index(header, name_type()).unwrap() as usize,
                client: column_index(header, name_client()).unwrap() as usize,
                tx: column_index(header, name_tx()).unwrap() as usize,
                amount: column_index(header, name_amount()).unwrap() as usize,
            },
        )
    } else {
        None
    }
}

/// Read the four column positions off the header row.
fn find_columns(header: &Vec<Vec<u8>>) -> (r: Option<Columns>)
    ensures
        r == columns_spec(fields_view(header@)),
{
    let tname: Vec<u8> = vec![116u8, 121, 112, 101];
    let cname: Vec<u8> = vec![99u8, 108, 105, 101, 110, 116];
    let xname: Vec<u8> = vec![116u8, 120];
    let aname: Vec<u8> = vec![97u8, 109, 111, 117, 110, 116];
    proof {
        assert(tname@ =~= name_type());
        assert(cname@ =~= name_client());
        assert(xname@ =~= name_tx());
        assert(aname@ =~= name_amount());
    }
    let kind = find_column(header, &tname);
    let client = find_column(header, &cname);
    let tx = find_column(header, &xname);
    let amount = find_column(header, &aname);
    match (kind, client, tx, amount) {
        (Some(k), Some(c), Some(t), Some(a)) => Some(
            Columns { kind: k, client: c, tx: t, amount: a },
        ),
        _ => None,
    }
}

/// The transaction a data row denotes under the given columns: the kind
/// must be one of the five names, client and tx must be in-range integers,
/// and the amount must decode for deposits and withdrawals; the amount
/// column is ignored for the dispute-lifecycle kinds.
pub open spec fn parse_row_spec(cols: Columns, fields: Seq<Seq<u8>>) -> Option<TransactionRow> {
    if cols.kind < fields.len() && cols.client < fields.len() && cols.tx < fields.len()
        && cols.amount < fields.len() {
        let kind = parse_kind_spec(fields[cols.kind as int]);
        let client = parse_uint_spec(fields[cols.client as int], u16::MAX as int);
        let tx = parse_uint_spec(fields[cols.tx as int], u32::MAX as int);
        if kind is Some && client is Some && tx is Some {
            let k = kind.unwrap();
            if k is Deposit || k is Withdrawal {
                match decode_spec(fields[cols.amount as int]) {
                    Some(amount) => Some(
                        TransactionRow {
                            kind: k,
                            client: client.unwrap() as u16,
                            tx: tx.unwrap() as u32,
                            amount: amount,
                        },
                    ),
                    None => None,
                }
            } else {
                Some(
                    TransactionRow {
                        kind: k,
                        client: client.unwrap() as u16,
                        tx: tx.unwrap() as u32,
                        amount: 0,
                    },
                )
            }
        } else {
            None
        }
    } else {
        None
    }
}

/// Parse one data row under the given columns.
fn parse_row(cols: Columns, fields: &Vec<Vec<u8>>) -> (r: Option<TransactionRow>)
    ensures
        r == parse_row_spec(cols, fields_view(fields@)),
{
    if !(cols.kind < fields.len() && cols.client < fields.len() && cols.tx < fields.len()
        && cols.amount < fields.len()) {
        return None;
    }
    let kind = match parse_kind(&fields[cols.kind]) {
        Some(k) => k,
        None => {
            return None;
        },
    };
    let client = match parse_uint(&fields[cols.client], 65535) {
        Some(c) => c as u16,
        None => {
            return None;
        },
    };
    let tx = match parse_uint(&fields[cols.tx], 4294967295) {
        Some(t) => t as u32,
        None => {
            return None;
        },
    };
    let amount: u64 = match kind {
        TransactionType::Deposit | TransactionType::Withdrawal => {
            match decode(&fields[cols.amount]) {
                Ok(a) => a,
                Err(_) => {
                    return None;
                },
            }
        },
        _ => 0,
    };
    Some(TransactionRow { kind: kind, client: client, tx: tx, amount: amount })
}

/// The transactions a whole input denotes: nothing without a header that
/// names all four columns; otherwise every data row that parses, in input
/// order.
pub open spec fn parse_rows_spec(rows: Seq<Seq<Seq<u8>>>) -> Seq<TransactionRow>
    decreases rows.len(),
{
    if rows.len() <= 1 {
        Seq::empty()
    } else {
        match columns_spec(rows[0]) {
            Some(cols) => parse_rows_spec(rows.drop_last()) + (match parse_row_spec(
                cols,
                rows.last(),
            ) {
                Some(t) => seq![t],
                None => Seq::empty(),
            }),
            None => Seq::empty(),
        }
    }
}

/// Read the raw input into parsed transactions: the rows the reader
/// accepts, interpreted under the header, with unusable rows dropped.
pub fn parse_csv(input: &[u8]) -> (r: Vec<TransactionRow>)
    ensures
        r@ == parse_rows_spec(csv_rows(input@)),
{
    let rows = read_rows(input);
    let ghost rv = rows_view(rows@);
    if rows.len() <= 1 {
        proof {
            assert(Seq::<TransactionRow>::empty() =~= parse_rows_spec(rv));
        }
        return Vec::new();
    }
    let cols = match find_columns(&rows[0]) {
        Some(c) => c,
        None => {
            proof {
                assert(parse_rows_spec(rv) =~= Seq::<TransactionRow>::empty());
            }
            return Vec::new();
        },
    };
    let mut out: Vec<TransactionRow> = Vec::new();
    let mut i: usize = 1;
    proof {
        assert(out@ =~= parse_rows_spec(rv.subrange(0, 1)));
    }
    while i < rows.len()
        invariant
            1 <= i <= rv.len(),
            rows_view(rows@) == rv,
            rows@.len() == rv.len(),
            columns_spec(rv[0]) == Some(cols),
            out@ == parse_rows_spec(rv.subrange(0, i as int)),
        decreases rv.len() - i,
    {
        proof {
            assert(rv.subrange(0, i + 1).drop_last() =~= rv.subrange(0, i as int));
            assert(rv.subrange(0, i + 1)[0] == rv[0]);
            assert(rv.subrange(0, i + 1).last() == rv[i as int]);
        }
        match parse_row(cols, &rows[i]) {
            Some(t) => {
                out.push(t);
                proof {
                    assert(out@ =~= parse_rows_spec(rv.subrange(0, i + 1)));
                }
            },
            None => {
                proof {
                    assert(out@ =~= parse_rows_spec(rv.subrange(0, i + 1)));
                }
            },
        }
        i = i + 1;
    }
    proof {
        assert(rv.subrange(0, rv.len() as int) =~= rv);
    }
    out
}

} // verus!
