//! Rendering the final account snapshot, and the whole pipeline from raw
//! input bytes to rendered output.
use crate::amount::{encode, encode_spec, padded_digits, ASCII_DOT};
use crate::csvio::{
    all_plain, csv_line, csv_rows, fields_view, line_of, plain_field, ASCII_COMMA, ASCII_CR,
    ASCII_LF, ASCII_QUOTE,
};
use crate::digits::{all_digits, int_digits, render_int};
use crate::driver::{client_order, process_spec, process_transactions};
use crate::ledger::{output_of, OutputAccount, TransactionRow};
use crate::rows::{name_client, parse_csv, parse_rows_spec};
use vstd::prelude::*;

verus! {

/// The header key "available".
pub open spec fn name_available() -> Seq<u8> {
    seq![97u8, 118u8, 97u8, 105u8, 108u8, 97u8, 98u8, 108u8, 101u8]
}

/// The header key "held".
pub open spec fn name_held() -> Seq<u8> {
    seq![104u8, 101u8, 108u8, 100u8]
}

/// The header key "total".
pub open spec fn name_total() -> Seq<u8> {
    seq![116u8, 111u8, 116u8, 97u8, 108u8]
}

/// The header key "locked".
pub open spec fn name_locked() -> Seq<u8> {
    seq![108u8, 111u8, 99u8, 107u8, 101u8, 100u8]
}

/// The literal "true" or "false".
pub open spec fn bool_text(b: bool) -> Seq<u8> {
    if b {
        seq![116u8, 114u8, 117u8, 101u8]
    } else {
        seq![102u8, 97u8, 108u8, 115u8, 101u8]
    }
}

/// Render a lock flag.
fn bool_vec(b: bool) -> (v: Vec<u8>)
    ensures
        v@ == bool_text(b),
{
    let v: Vec<u8> = if b {
        vec![116u8, 114, 117, 101]
    } else {
        vec![102u8, 97, 108, 115, 101]
    };
    proof {
        assert(v@ =~= bool_text(b));
    }
    v
}

/// The five fields of the output header line.
pub open spec fn header_fields() -> Seq<Seq<u8>> {
    seq![name_client(), name_available(), name_held(), name_total(), name_locked()]
}

/// The textual fields of one output row: client id, the three amounts, and
/// the lock flag.
pub open spec fn output_fields(o: OutputAccount) -> Seq<Seq<u8>> {
    seq![
        int_digits(o.client as int),
        encode_spec(o.available),
        encode_spec(o.held),
        encode_spec(o.total),
        bool_text(o.locked),
    ]
}

/// The rendered data lines, one per output row, in order.
pub open spec fn output_lines(outs: Seq<OutputAccount>) -> Seq<u8>
    decreases outs.len(),
{
    if outs.len() == 0 {
        Seq::empty()
    } else {
        output_lines(outs.drop_last()) + line_of(output_fields(outs.last()))
    }
}

/// The rendered output: empty when there is no account, else the header
/// line and one line per account.
pub open spec fn render_spec(outs: Seq<OutputAccount>) -> Seq<u8> {
    if outs.len() == 0 {
        Seq::empty()
    } else {
        line_of(header_fields()) + output_lines(outs)
    }
}

/// A non-empty digit string is a plain field.
proof fn lemma_digits_plain(s: Seq<u8>)
    requires
        s.len() > 0,
        all_digits(s),
    ensures
        plain_field(s),
{
}

/// An encoded amount is a plain field: digits and one decimal point.
proof fn lemma_encode_plain(x: u64)
    ensures
        plain_field(encode_spec(x)),
{
    if x == 0 {
        assert(encode_spec(0).len() == 3);
    } else {
        crate::amount::lemma_padded_digits(x as int);
        let d = padded_digits(x as int);
        let s = encode_spec(x);
        assert forall|i: int|
            0 <= i < s.len() implies #[trigger] s[i] != ASCII_COMMA && s[i] != ASCII_QUOTE && s[i]
            != ASCII_LF && s[i] != ASCII_CR by {
            if i < d.len() - 4 {
                assert(s[i] == d.subrange(0, d.len() - 4)[i]);
                assert(crate::digits::is_digit(d[i]));
            } else if i == d.len() - 4 {
                assert(s[i] == ASCII_DOT);
            } else {
                assert(s[i] == d.subrange(d.len() - 4, d.len() as int)[i - (d.len() - 4) - 1]);
                assert(crate::digits::is_digit(d[i - 1]));
            }
        }
    }
}

/// Build the fields of one output row.
fn output_fields_vec(o: &OutputAccount) -> (fields: Vec<Vec<u8>>)
    ensures
        fields_view(fields@) == output_fields(*o),
        all_plain(fields_view(fields@)),
{
    let mut fields: Vec<Vec<u8>> = Vec::new();
    fields.push(render_int(o.client as u64));
    fields.push(encode(o.available));
    fields.push(encode(o.held));
    fields.push(encode(o.total));
    fields.push(bool_vec(o.locked));
    proof {
        assert(fields_view(fields@) =~= output_fields(*o));
        lemma_digits_plain(int_digits(o.client as int));
        lemma_encode_plain(o.available);
        lemma_encode_plain(o.held);
        lemma_encode_plain(o.total);
        assert forall|i: int|
            0 <= i < fields_view(fields@).len() implies plain_field(
            #[trigger] fields_view(fields@)[i],
        ) by {
            if i == 4 {
                assert(fields_view(fields@)[4] == bool_text(o.locked));
            }
        }
    }
    fields
}

/// Render the final snapshot: a header line and one line per account, in
/// the order given.
pub fn render_accounts(outs: &Vec<OutputAccount>) -> (r: Vec<u8>)
    ensures
        r@ == render_spec(outs@),
{
    if outs.is_empty() {
        let r: Vec<u8> = Vec::new();
        proof {
            assert(r@ =~= render_spec(outs@));
        }
        return r;
    }
    let mut hfields: Vec<Vec<u8>> = Vec::new();
    hfields.push(vec![99u8, 108, 105, 101, 110, 116]);
    hfields.push(vec![97u8, 118, 97, 105, 108, 97, 98, 108, 101]);
    hfields.push(vec![104u8, 101, 108, 100]);
    hfields.push(vec![116u8, 111, 116, 97, 108]);
    hfields.push(vec![108u8, 111, 99, 107, 101, 100]);
    proof {
        assert(fields_view(hfields@) =~= header_fields());
        assert(plain_field(name_client()));
        assert(plain_field(name_available()));
        assert(plain_field(name_held()));
        assert(plain_field(name_total()));
        assert(plain_field(name_locked()));
        assert(all_plain(header_fields()));
    }
    let mut r = csv_line(&hfields);
    let mut i: usize = 0;
    proof {
        assert(output_lines(outs@.subrange(0, 0)) =~= Seq::<u8>::empty());
        assert(r@ =~= line_of(header_fields()) + output_lines(outs@.subrange(0, 0)));
    }
    while i < outs.len()
        invariant
            0 <= i <= outs@.len(),
            r@ == line_of(header_fields()) + output_lines(outs@.subrange(0, i as int)),
        decreases outs@.len() - i,
    {
        let fields = output_fields_vec(&outs[i]);
        let mut line = csv_line(&fields);
        r.append(&mut line);
        proof {
            assert(outs@.subrange(0, i + 1).drop_last() =~= outs@.subrange(0, i as int));
            assert(outs@.subrange(0, i + 1).last() == outs@[i as int]);
            assert(r@ =~= line_of(header_fields()) + output_lines(outs@.subrange(0, i + 1)));
        }
        i = i + 1;
    }
    proof {
        assert(outs@.subrange(0, outs@.len() as int) =~= outs@);
    }
    r
}

/// The output rows a transaction sequence leads to: one per client, in
/// order of first appearance, projected from the folded accounts.
pub open spec fn outputs_spec(rows: Seq<TransactionRow>) -> Seq<OutputAccount> {
    Seq::new(
        client_order(rows).len(),
        |i: int| output_of(process_spec(rows)[client_order(rows)[i]]),
    )
}

/// The whole pipeline: parse the raw input, fold the parsed transactions
/// into accounts, and render the final snapshot.
pub fn process_csv(input: &[u8]) -> (out: Vec<u8>)
    ensures
        out@ == render_spec(outputs_spec(parse_rows_spec(csv_rows(input@)))),
{
    let records = parse_csv(input);
    let accounts = process_transactions(&records);
    let mut outs: Vec<OutputAccount> = Vec::new();
    let mut i: usize = 0;
    while i < accounts.len()
        invariant
            0 <= i <= accounts@.len(),
            accounts@.len() == client_order(records@).len(),
            forall|k: int|
                0 <= k < accounts@.len() ==> {
                    &&& (#[trigger] accounts@[k])@ == process_spec(records@)[client_order(
                        records@,
                    )[k]]
                    &&& accounts@[k]@.wf()
                },
            outs@.len() == i,
            forall|k: int| 0 <= k < i ==> #[trigger] outs@[k] == outputs_spec(records@)[k],
        decreases accounts@.len() - i,
    {
        let o = crate::ledger::OutputAccount::from_account(&accounts[i]);
        outs.push(o);
        i = i + 1;
    }
    proof {
        assert(outs@ =~= outputs_spec(records@));
    }
    render_accounts(&outs)
}

} // verus!
