//! The batch driver: fold an ordered sequence of transaction rows into one
//! account per client, creating accounts lazily on first sight.
use crate::ledger::{apply_spec, new_account, Account, AccountView, TransactionRow};
use std::collections::HashMap;
use vstd::prelude::*;

verus! {

broadcast use vstd::std_specs::hash::group_hash_axioms;

/// The accounts produced by folding `rows` left to right, keyed by client
/// id. A client's account is created the first time a row names it.
pub open spec fn process_spec(rows: Seq<TransactionRow>) -> Map<u16, AccountView>
    decreases rows.len(),
{
    if rows.len() == 0 {
        Map::empty()
    } else {
        let m = process_spec(rows.drop_last());
        let t = rows.last();
        let a = if m.contains_key(t.client) {
            m[t.client]
        } else {
            new_account(t.client)
        };
        m.insert(t.client, apply_spec(a, t))
    }
}

/// The distinct client ids of `rows`, in order of first appearance.
pub open spec fn client_order(rows: Seq<TransactionRow>) -> Seq<u16>
    decreases rows.len(),
{
    if rows.len() == 0 {
        Seq::empty()
    } else {
        let prev = client_order(rows.drop_last());
        if prev.contains(rows.last().client) {
            prev
        } else {
            prev.push(rows.last().client)
        }
    }
}

/// `client_order` lists each client exactly once, and exactly the clients
/// that `process_spec` has an account for; every account is well formed and
/// carries its own client id.
pub proof fn lemma_process_spec_invariants(rows: Seq<TransactionRow>)
    ensures
        client_order(rows).no_duplicates(),
        forall|c: u16|
            client_order(rows).contains(c) <==> #[trigger] process_spec(rows).contains_key(c),
        forall|c: u16|
            #[trigger] process_spec(rows).contains_key(c) ==> process_spec(rows)[c].wf()
                && process_spec(rows)[c].client == c,
    decreases rows.len(),
{
    if rows.len() > 0 {
        lemma_process_spec_invariants(rows.drop_last());
        let t = rows.last();
        let m = process_spec(rows.drop_last());
        let prev = client_order(rows.drop_last());
        let ord2 = client_order(rows);
        let a = if m.contains_key(t.client) {
            m[t.client]
        } else {
            new_account(t.client)
        };
        crate::ledger::lemma_wf_preserved(a, t);
        assert forall|c: u16|
            ord2.contains(c) <==> #[trigger] process_spec(rows).contains_key(c) by {
            if c == t.client {
                if !prev.contains(c) {
                    assert(ord2[ord2.len() - 1] == c);
                }
            } else {
                if prev.contains(c) {
                    let k = choose|k: int| 0 <= k < prev.len() && prev[k] == c;
                    assert(ord2[k] == c);
                }
                if ord2.contains(c) {
                    let k = choose|k: int| 0 <= k < ord2.len() && ord2[k] == c;
                    assert(k < prev.len());
                    assert(prev[k] == c);
                }
            }
        }
        if !prev.contains(t.client) {
            assert forall|p: int, q: int| 0 <= p < q < ord2.len() implies ord2[p] != ord2[q] by {
                if q == ord2.len() - 1 {
                    assert(prev[p] == ord2[p]);
                    assert(prev.contains(ord2[p]));
                }
            }
        }
    }
}

/// Fold the rows into one account per client, in order of first appearance.
pub fn process_transactions(transactions: &Vec<TransactionRow>) -> (accounts: Vec<Account>)
    ensures
        accounts@.len() == client_order(transactions@).len(),
        forall|i: int|
            0 <= i < accounts@.len() ==> {
                &&& (#[trigger] accounts@[i])@ == process_spec(transactions@)[client_order(
                    transactions@,
                )[i]]
                &&& accounts@[i].client == client_order(transactions@)[i]
                &&& accounts@[i]@.wf()
            },
{
    let ghost all = transactions@;
    let mut table: HashMap<u16, Account> = HashMap::new();
    let mut order: Vec<u16> = Vec::new();
    let mut i: usize = 0;
    proof {
        assert(all.subrange(0, 0) =~= Seq::<TransactionRow>::empty());
        assert(table@.dom() =~= Set::<u16>::empty());
    }
    while i < transactions.len()
        invariant
            0 <= i <= all.len(),
            transactions@ == all,
            order@ == client_order(all.subrange(0, i as int)),
            order@.no_duplicates(),
            forall|c: u16| order@.contains(c) <==> #[trigger] table@.contains_key(c),
            forall|c: u16|
                #[trigger] table@.contains_key(c) ==> table@[c]@ == process_spec(
                    all.subrange(0, i as int),
                )[c] && table@[c]@.wf() && table@[c].client == c,
        decreases all.len() - i,
    {
        let ghost prefix = all.subrange(0, i as int);
        let t = transactions[i];
        proof {
            assert(all.subrange(0, i + 1).drop_last() =~= prefix);
            assert(all.subrange(0, i + 1).last() == t);
            lemma_process_spec_invariants(prefix);
        }
        let mut account = match table.remove(&t.client) {
            Some(a) => a,
            None => {
                order.push(t.client);
                proof {
                    assert(!client_order(prefix).contains(t.client));
                }
                Account::new(t.client)
            },
        };
        account.process_transaction(&t);
        table.insert(t.client, account);
        proof {
            let m = process_spec(prefix);
            let prev = client_order(prefix);
            assert forall|c: u16| order@.contains(c) <==> #[trigger] table@.contains_key(c) by {
                if c == t.client {
                    assert(order@[order@.len() - 1] == c || prev.contains(c));
                } else {
                    assert(order@.contains(c) <==> prev.contains(c)) by {
                        if prev.contains(c) {
                            let k = choose|k: int| 0 <= k < prev.len() && prev[k] == c;
                            assert(order@[k] == c);
                        }
                        if order@.contains(c) {
                            let k = choose|k: int| 0 <= k < order@.len() && order@[k] == c;
                            assert(k < prev.len());
                            assert(prev[k] == c);
                        }
                    }
                }
            }
            assert(order@.no_duplicates()) by {
                if !prev.contains(t.client) {
                    assert forall|p: int, q: int|
                        0 <= p < q < order@.len() implies order@[p] != order@[q] by {
                        if q == order@.len() - 1 {
                            assert(prev[p] == order@[p]);
                            assert(prev.contains(order@[p]));
                        }
                    }
                }
            }
            assert(process_spec(all.subrange(0, i + 1)) == m.insert(
                t.client,
                apply_spec(
                    if m.contains_key(t.client) {
                        m[t.client]
                    } else {
                        new_account(t.client)
                    },
                    t,
                ),
            ));
            assert(client_order(all.subrange(0, i + 1)) == (if client_order(prefix).contains(
                t.client,
            ) {
                client_order(prefix)
            } else {
                client_order(prefix).push(t.client)
            }));
        }
        i = i + 1;
    }
    proof {
        assert(all.subrange(0, all.len() as int) =~= all);
    }
    let ghost m = process_spec(all);
    let ghost ord = client_order(all);
    proof {
        assert(ord.subrange(0, ord.len() as int) =~= ord);
    }
    let mut accounts: Vec<Account> = Vec::new();
    let mut j: usize = 0;
    while j < order.len()
        invariant
            0 <= j <= order@.len(),
            order@ == ord,
            ord.no_duplicates(),
            accounts@.len() == j,
            forall|i: int|
                0 <= i < j ==> {
                    &&& (#[trigger] accounts@[i])@ == m[ord[i]]
                    &&& accounts@[i].client == ord[i]
                    &&& accounts@[i]@.wf()
                },
            forall|c: u16|
                #[trigger] table@.contains_key(c) <==> ord.subrange(j as int, ord.len() as int)
                    .contains(c),
            forall|c: u16|
                #[trigger] table@.contains_key(c) ==> table@[c]@ == m[c] && table@[c]@.wf()
                    && table@[c].client == c,
        decreases order@.len() - j,
    {
        let c = order[j];
        proof {
            assert(ord.subrange(j as int, ord.len() as int).contains(c)) by {
                assert(ord.subrange(j as int, ord.len() as int)[0] == ord[j as int]);
            }
        }
        let account = match table.remove(&c) {
            Some(a) => a,
            None => {
                proof {
                    assert(false);
                }
                Account::new(c)
            },
        };
        accounts.push(account);
        proof {
            assert forall|x: u16| #[trigger]
                table@.contains_key(x) <==> ord.subrange(j + 1, ord.len() as int).contains(x) by {
                let tail = ord.subrange(j as int, ord.len() as int);
                let tail1 = ord.subrange(j + 1, ord.len() as int);
                assert(tail1 =~= tail.subrange(1, tail.len() as int));
                if tail1.contains(x) {
                    let k = choose|k: int| 0 <= k < tail1.len() && tail1[k] == x;
                    assert(tail[k + 1] == x);
                    assert(ord[j + 1 + k] == x);
                    if x == c {
                        assert(ord[j as int] == x);
                        assert(!ord.no_duplicates());
                    }
                }
                if table@.contains_key(x) {
                    assert(tail.contains(x));
                    let k = choose|k: int| 0 <= k < tail.len() && tail[k] == x;
                    assert(k != 0);
                    assert(tail1[k - 1] == x);
                }
            }
        }
        j = j + 1;
    }
    accounts
}

} // verus!
