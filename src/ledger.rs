//! The unspent-output ledger: each owner's spendable outputs, in the order they
//! arrived, and the transfers that spend them.

use crate::pow::{decimal, digest, push_decimal, sha256_hex_of};
use crate::transaction::{lemma_amount_fits, lemma_sum_split, sum_amounts, utxo_views, Transaction, UtxoView, UTXO};
use vstd::prelude::*;

verus! {

/// The ledger as a map from owner to that owner's outputs.
pub type LedgerMap = Map<Seq<char>, Seq<UtxoView>>;

/// The total that `owner` can spend.
pub open spec fn balance(m: LedgerMap, owner: Seq<char>) -> nat {
    if m.contains_key(owner) {
        sum_amounts(m[owner])
    } else {
        0
    }
}

/// `k` is the number of outputs that greedy selection takes from `frags` for a
/// transfer of `amount`: outputs are taken in order until their total exceeds
/// `amount`, or until none are left.
pub open spec fn is_selection(frags: Seq<UtxoView>, amount: nat, k: nat) -> bool {
    &&& k <= frags.len()
    &&& forall|j: nat| j < k ==> #[trigger] sum_amounts(frags.take(j as int)) <= amount
    &&& (k == frags.len() || sum_amounts(frags.take(k as int)) > amount)
}

/// Adds output `u` at the end of `owner`'s outputs.
pub open spec fn credit(m: LedgerMap, owner: Seq<char>, u: UtxoView) -> LedgerMap {
    if m.contains_key(owner) {
        m.insert(owner, m[owner].push(u))
    } else {
        m.insert(owner, seq![u])
    }
}

/// The outputs of a transfer: `amount` to `to`, then the change, if any, back to `from`.
pub open spec fn transfer_outputs(
    tx_id: Seq<char>,
    from: Seq<char>,
    to: Seq<char>,
    amount: nat,
    total: nat,
) -> Seq<UtxoView> {
    let paid = UtxoView { tx_id, output_index: 0, amount, owner: to };
    if total > amount {
        seq![paid, UtxoView { tx_id, output_index: 1, amount: (total - amount) as nat, owner: from }]
    } else {
        seq![paid]
    }
}

/// The ledger after a transfer that spends the first `k` outputs of `from` and
/// creates `outputs`: the first goes to its owner, the second, if any, to `from`.
pub open spec fn apply_transfer(
    m: LedgerMap,
    from: Seq<char>,
    k: nat,
    outputs: Seq<UtxoView>,
) -> LedgerMap {
    let spent = m.insert(from, m[from].skip(k as int));
    let paid = credit(spent, outputs[0].owner, outputs[0]);
    if outputs.len() > 1 {
        credit(paid, from, outputs[1])
    } else {
        paid
    }
}

/// Crediting an output raises its owner's balance by its amount and leaves every
/// other balance as it was.
pub proof fn lemma_credit_balance(m: LedgerMap, owner: Seq<char>, u: UtxoView)
    ensures
        forall|o: Seq<char>|
            #[trigger] balance(credit(m, owner, u), o) == balance(m, o) + if o == owner {
                u.amount
            } else {
                0
            },
{
    if m.contains_key(owner) {
        assert(m[owner].push(u).drop_last() =~= m[owner]);
        assert(sum_amounts(m[owner].push(u)) == sum_amounts(m[owner]) + u.amount);
    } else {
        assert(seq![u].drop_last() =~= Seq::<UtxoView>::empty());
        assert(sum_amounts(Seq::<UtxoView>::empty()) == 0);
        assert(sum_amounts(seq![u]) == u.amount);
    }
}

/// Value is neither created nor destroyed by a transfer that goes through: `from`
/// loses `amount`, `to` gains it, and every other owner keeps its balance.
pub proof fn lemma_transfer_conserves(
    m: LedgerMap,
    from: Seq<char>,
    to: Seq<char>,
    amount: nat,
    k: nat,
    tx_id: Seq<char>,
)
    requires
        m.contains_key(from),
        is_selection(m[from], amount, k),
        sum_amounts(m[from].take(k as int)) >= amount,
    ensures
        ({
            let outputs = transfer_outputs(
                tx_id,
                from,
                to,
                amount,
                sum_amounts(m[from].take(k as int)),
            );
            let after = apply_transfer(m, from, k, outputs);
            forall|o: Seq<char>|
                #[trigger] balance(after, o) + (if o == from { amount } else { 0 }) == balance(m, o)
                    + (if o == to { amount } else { 0 })
        }),
{
    let total = sum_amounts(m[from].take(k as int));
    let outputs = transfer_outputs(tx_id, from, to, amount, total);
    lemma_sum_split(m[from], k as int);
    let spent = m.insert(from, m[from].skip(k as int));
    let paid = credit(spent, outputs[0].owner, outputs[0]);
    lemma_credit_balance(spent, outputs[0].owner, outputs[0]);
    if outputs.len() > 1 {
        lemma_credit_balance(paid, from, outputs[1]);
    }
}

/// `after` is `before` with a transfer of `amount` from `from` to `to` that went
/// through, under some transaction identifier.
pub open spec fn is_transfer_step(
    before: LedgerMap,
    after: LedgerMap,
    from: Seq<char>,
    to: Seq<char>,
    amount: nat,
) -> bool {
    exists|k: nat, tx_id: Seq<char>|
        {
            &&& before.contains_key(from)
            &&& #[trigger] is_selection(before[from], amount, k)
            &&& sum_amounts(before[from].take(k as int)) >= amount
            &&& after == #[trigger] apply_transfer(
                before,
                from,
                k,
                transfer_outputs(tx_id, from, to, amount, sum_amounts(before[from].take(k as int))),
            )
        }
}

/// What `owner` sent over a sequence of transfers `(from, to, amount)`.
pub open spec fn total_sent(steps: Seq<(Seq<char>, Seq<char>, nat)>, owner: Seq<char>) -> nat
    decreases steps.len(),
{
    if steps.len() == 0 {
        0
    } else {
        total_sent(steps.drop_last(), owner) + if steps.last().0 == owner {
            steps.last().2
        } else {
            0
        }
    }
}

/// What `owner` received over a sequence of transfers `(from, to, amount)`.
pub open spec fn total_received(steps: Seq<(Seq<char>, Seq<char>, nat)>, owner: Seq<char>) -> nat
    decreases steps.len(),
{
    if steps.len() == 0 {
        0
    } else {
        total_received(steps.drop_last(), owner) + if steps.last().1 == owner {
            steps.last().2
        } else {
            0
        }
    }
}

/// A transfer made by `create_transfer` that returned a transaction is a transfer step.
pub proof fn lemma_outcome_is_step(
    before: UtxoLedger,
    after: UtxoLedger,
    from: Seq<char>,
    to: Seq<char>,
    amount: nat,
    r: Option<Transaction>,
)
    requires
        transfer_outcome(before, after, from, to, amount, r),
        r is Some,
    ensures
        is_transfer_step(before@, after@, from, to, amount),
{
    let frags = before@[from];
    let k = choose|k: nat| is_selection(frags, amount, k);
    assert(is_selection(frags, amount, k)) by {
        lemma_selection_exists(frags, amount);
    }
    let tx = r.unwrap()@;
    assert(is_selection(before@[from], amount, k));
    assert(after@ == apply_transfer(
        before@,
        from,
        k,
        transfer_outputs(tx.tx_id, from, to, amount, sum_amounts(frags.take(k as int))),
    ));
}

/// Every sequence of outputs has a greedy selection for every amount.
pub proof fn lemma_selection_exists(frags: Seq<UtxoView>, amount: nat)
    ensures
        exists|k: nat| is_selection(frags, amount, k),
    decreases frags.len(),
{
    if frags.len() == 0 {
        assert(is_selection(frags, amount, 0));
    } else {
        let p = frags.drop_last();
        lemma_selection_exists(p, amount);
        let k = choose|k: nat| is_selection(p, amount, k);
        assert forall|j: nat| j <= p.len() implies #[trigger] frags.take(j as int) == p.take(
            j as int,
        ) by {
            assert(frags.take(j as int) =~= p.take(j as int));
        }
        if k < p.len() || sum_amounts(p) > amount {
            if k == p.len() {
                assert(p.take(k as int) =~= p);
            }
            assert(is_selection(frags, amount, k));
        } else {
            assert(p.take(k as int) =~= p);
            assert(frags.take(frags.len() as int) =~= frags);
            assert(is_selection(frags, amount, frags.len()));
        }
    }
}

/// Value is conserved over any sequence of transfers that went through: each
/// owner ends with its first balance, less what it sent, plus what it received.
pub proof fn lemma_transfers_conserve(
    states: Seq<LedgerMap>,
    steps: Seq<(Seq<char>, Seq<char>, nat)>,
)
    requires
        states.len() == steps.len() + 1,
        forall|i: int|
            0 <= i < steps.len() ==> is_transfer_step(
                #[trigger] states[i],
                states[i + 1],
                steps[i].0,
                steps[i].1,
                steps[i].2,
            ),
    ensures
        forall|o: Seq<char>|
            #[trigger] balance(states.last(), o) + total_sent(steps, o) == balance(states[0], o)
                + total_received(steps, o),
    decreases steps.len(),
{
    if steps.len() > 0 {
        let n = steps.len() - 1;
        let prefix = states.drop_last();
        lemma_transfers_conserve(prefix, steps.drop_last());
        let (from, to, amount) = steps[n];
        assert(is_transfer_step(states[n], states[n + 1], from, to, amount));
        let (k, tx_id) = choose|k: nat, tx_id: Seq<char>|
            {
                &&& states[n].contains_key(from)
                &&& #[trigger] is_selection(states[n][from], amount, k)
                &&& sum_amounts(states[n][from].take(k as int)) >= amount
                &&& states[n + 1] == #[trigger] apply_transfer(
                    states[n],
                    from,
                    k,
                    transfer_outputs(
                        tx_id,
                        from,
                        to,
                        amount,
                        sum_amounts(states[n][from].take(k as int)),
                    ),
                )
            };
        lemma_transfer_conserves(states[n], from, to, amount, k, tx_id);
        assert forall|o: Seq<char>|
            #[trigger] balance(states.last(), o) + total_sent(steps, o) == balance(states[0], o)
                + total_received(steps, o) by {
            assert(prefix.last() == states[n]);
            assert(balance(prefix.last(), o) + total_sent(steps.drop_last(), o) == balance(
                prefix[0],
                o,
            ) + total_received(steps.drop_last(), o));
        }
    }
}

/// The spent outputs as text: for each, its transaction id, `#`, its index and `;`.
pub open spec fn inputs_text(inputs: Seq<UtxoView>) -> Seq<char>
    decreases inputs.len(),
{
    if inputs.len() == 0 {
        Seq::<char>::empty()
    } else {
        inputs_text(inputs.drop_last()) + inputs.last().tx_id + seq!['#'] + decimal(
            inputs.last().output_index,
        ) + seq![';']
    }
}

/// The text hashed for a transaction's identifier: the ledger's transfer counter,
/// the two parties, the amount and the outputs spent. Spent outputs leave the
/// ledger, so two transfers share this text only where their counters coincide,
/// which takes 2^64 transfers, and they also spend outputs of equal ids.
pub open spec fn tx_id_preimage(
    counter: nat,
    from: Seq<char>,
    to: Seq<char>,
    amount: nat,
    inputs: Seq<UtxoView>,
) -> Seq<char> {
    decimal(counter) + seq![':'] + from + seq!['>'] + to + seq![':'] + decimal(amount) + seq![':']
        + inputs_text(inputs)
}

/// What a transfer from `from` to `to` of `amount` does to a ledger, and what it returns:
/// nothing, with the ledger unchanged, where the owner is unknown or the greedy
/// selection falls short; otherwise the transaction, with the ledger updated.
pub open spec fn transfer_outcome(
    before: UtxoLedger,
    after: UtxoLedger,
    from: Seq<char>,
    to: Seq<char>,
    amount: nat,
    r: Option<Transaction>,
) -> bool {
    &&& !before@.contains_key(from) ==> r is None && after == before
    &&& before@.contains_key(from) ==> forall|k: nat|
        #[trigger] is_selection(before@[from], amount, k) ==> {
            let total = sum_amounts(before@[from].take(k as int));
            if total < amount {
                r is None && after == before
            } else {
                let tx = r.unwrap()@;
                &&& r is Some
                &&& tx.tx_id == sha256_hex_of(
                    tx_id_preimage(
                        before.spec_tx_count(),
                        from,
                        to,
                        amount,
                        before@[from].take(k as int),
                    ),
                )
                &&& tx.inputs == before@[from].take(k as int)
                &&& tx.outputs == transfer_outputs(tx.tx_id, from, to, amount, total)
                &&& after@ == apply_transfer(before@, from, k, tx.outputs)
                &&& after.spec_tx_count() == if before.spec_tx_count() < u64::MAX as nat {
                    before.spec_tx_count() + 1
                } else {
                    0
                }
            }
        }
}

struct Account {
    owner: String,
    utxos: Vec<UTXO>,
}

/// Each owner's spendable outputs, in order of arrival.
///
/// The owners are kept in a vector of accounts, with distinct owners as the
/// invariant, rather than in a `HashMap` keyed by `String`: vstd's specification
/// of `HashMap` says what a lookup returns only for keys that obey its key model,
/// which it grants to integer and `bool` keys but not to `String`, so a map keyed
/// by owner name would leave the contracts below unprovable.
pub struct UtxoLedger {
    accounts: Vec<Account>,
    tx_count: u64,
    model: Ghost<LedgerMap>,
}

impl View for UtxoLedger {
    type V = LedgerMap;

    closed spec fn view(&self) -> LedgerMap {
        self.model@
    }
}

impl UtxoLedger {
    /// Owners are distinct, and the map holds exactly the accounts.
    pub closed spec fn wf(&self) -> bool {
        &&& forall|i: int, j: int|
            0 <= i < self.accounts.len() && 0 <= j < self.accounts.len() && i != j
                ==> self.accounts[i].owner@ != self.accounts[j].owner@
        &&& forall|i: int|
            0 <= i < self.accounts.len() ==> {
                &&& #[trigger] self.model@.contains_key(self.accounts[i].owner@)
                &&& self.model@[self.accounts[i].owner@] == utxo_views(self.accounts[i].utxos@)
            }
        &&& forall|o: Seq<char>|
            #[trigger] self.model@.contains_key(o) ==> exists|i: int|
                0 <= i < self.accounts.len() && self.accounts[i].owner@ == o
    }

    /// The number of transfers made so far, counted modulo 2^64; it takes part in
    /// each transaction's identifier.
    pub closed spec fn spec_tx_count(&self) -> nat {
        self.tx_count as nat
    }

    /// An empty ledger.
    pub fn new() -> (r: UtxoLedger)
        ensures
            r.wf(),
            r@ == Map::<Seq<char>, Seq<UtxoView>>::empty(),
            r.spec_tx_count() == 0,
    {
        UtxoLedger { accounts: Vec::new(), tx_count: 0, model: Ghost(Map::empty()) }
    }

    fn find(&self, owner: &String) -> (r: Option<usize>)
        requires
            self.wf(),
        ensures
            match r {
                None => !self@.contains_key(owner@),
                Some(i) => i < self.accounts.len() && self.accounts[i as int].owner@ == owner@,
            },
    {
        let mut i: usize = 0;
        while i < self.accounts.len()
            invariant
                i <= self.accounts.len(),
                forall|j: int| 0 <= j < i ==> self.accounts[j].owner@ != owner@,
            decreases self.accounts.len() - i,
        {
            if self.accounts[i].owner == *owner {
                return Some(i);
            }
            i = i + 1;
        }
        proof {
            if self.model@.contains_key(owner@) {
                let j = choose|j: int|
                    0 <= j < self.accounts.len() && self.accounts[j].owner@ == owner@;
                assert(self.accounts[j].owner@ != owner@);
            }
        }
        None
    }

    /// The outputs of `owner`, or nothing where the ledger has no entry for it.
    pub fn utxos_of(&self, owner: &String) -> (r: Option<&[UTXO]>)
        requires
            self.wf(),
        ensures
            match r {
                None => !self@.contains_key(owner@),
                Some(s) => self@.contains_key(owner@) && utxo_views(s@) == self@[owner@],
            },
    {
        match self.find(owner) {
            None => None,
            Some(i) => {
                assert(self.model@.contains_key(self.accounts[i as int].owner@));
                Some(self.accounts[i].utxos.as_slice())
            },
        }
    }

    /// Adds `u` at the end of its owner's outputs.
    pub fn add_utxo(&mut self, u: UTXO)
        requires
            old(self).wf(),
        ensures
            final(self).wf(),
            final(self)@ == credit(old(self)@, u@.owner, u@),
            final(self).spec_tx_count() == old(self).spec_tx_count(),
    {
        let owner = u.get_owner();
        let ghost uv = u@;
        match self.find(&owner) {
            Some(i) => {
                let ghost old_model = self.model@;
                let ghost old_utxos = self.accounts[i as int].utxos@;
                assert(old_model.contains_key(old(self).accounts[i as int].owner@));
                assert(old_model[owner@] == utxo_views(old_utxos));
                self.accounts[i].utxos.push(u);
                assert(self.accounts[i as int].utxos@ == old_utxos.push(u));
                assert(self.accounts.len() == old(self).accounts.len());
                assert(forall|j: int| 0 <= j < self.accounts.len() && j != i ==> self.accounts[j] == old(self).accounts[j]);
                self.model = Ghost(old_model.insert(owner@, old_model[owner@].push(uv)));
                assert(utxo_views(self.accounts[i as int].utxos@) =~= old_model[owner@].push(uv));
                assert forall|o: Seq<char>| #[trigger] self.model@.contains_key(o) implies exists|j: int|
                    0 <= j < self.accounts.len() && self.accounts[j].owner@ == o by {
                    if o != owner@ {
                        assert(old_model.contains_key(o));
                    }
                }
            },
            None => {
                let ghost old_model = self.model@;
                let mut utxos: Vec<UTXO> = Vec::new();
                utxos.push(u);
                self.accounts.push(Account { owner: owner.clone(), utxos });
                self.model = Ghost(old_model.insert(owner@, seq![uv]));
                let ghost last = self.accounts.len() - 1;
                assert(utxo_views(self.accounts[last].utxos@) =~= seq![uv]);
                assert forall|o: Seq<char>| #[trigger] self.model@.contains_key(o) implies exists|j: int|
                    0 <= j < self.accounts.len() && self.accounts[j].owner@ == o by {
                    if o != owner@ {
                        assert(old_model.contains_key(o));
                        let j = choose|j: int| 0 <= j < old(self).accounts.len() && old(self).accounts[j].owner@ == o;
                        assert(self.accounts[j].owner@ == o);
                    } else {
                        assert(self.accounts[last].owner@ == o);
                    }
                }
            },
        }
    }

    /// Transfers `amount` from `from` to `to`. Outputs of `from` are selected greedily
    /// in order (see `is_selection`); where the owner is unknown or the selection
    /// falls short of `amount`, nothing changes and the result is `None`. Otherwise
    /// the selected outputs are removed, an output of `amount` goes to `to`, any
    /// change goes back to `from`, and the transaction is returned.
    pub fn create_transfer(&mut self, from: &String, to: &String, amount: u64) -> (r: Option<
        Transaction,
    >)
        requires
            old(self).wf(),
        ensures
            final(self).wf(),
            transfer_outcome(*old(self), *final(self), from@, to@, amount as nat, r),
    {
        let idx = match self.find(from) {
            None => return None,
            Some(i) => i,
        };
        let ghost frags = self@[from@];
        proof {
            assert(self.model@.contains_key(self.accounts[idx as int].owner@));
        }
        let n = self.accounts[idx].utxos.len();
        let mut total: u128 = 0;
        let mut k: usize = 0;
        while k < n && total <= amount as u128
            invariant
                self.wf(),
                idx < self.accounts.len(),
                self.accounts[idx as int].owner@ == from@,
                frags == utxo_views(self.accounts[idx as int].utxos@),
                n == frags.len(),
                k <= n,
                total == sum_amounts(frags.take(k as int)),
                k > 0 ==> sum_amounts(frags.take(k - 1)) <= amount,
                forall|j: nat| j < k ==> #[trigger] sum_amounts(frags.take(j as int)) <= amount,
            decreases n - k,
        {
            let a = self.accounts[idx].utxos[k].get_amount();
            proof {
                assert(frags.take(k + 1).drop_last() =~= frags.take(k as int));
                assert(frags.take(k as int).len() == k);
            }
            total = total + a as u128;
            k = k + 1;
        }
        assert(is_selection(frags, amount as nat, k as nat));
        if total < amount as u128 {
            proof {
                assert forall|k2: nat| #[trigger] is_selection(frags, amount as nat, k2) implies k2
                    == k by {}
            }
            return None;
        }
        assert forall|k2: nat| #[trigger] is_selection(frags, amount as nat, k2) implies k2
            == k by {}
        let ghost count = self.tx_count as nat;
        let mut pre = String::new();
        push_decimal(&mut pre, self.tx_count as u128);
        pre.append(":");
        pre.append(from.as_str());
        pre.append(">");
        pre.append(to.as_str());
        pre.append(":");
        push_decimal(&mut pre, amount as u128);
        pre.append(":");
        proof {
            reveal_strlit(":");
            reveal_strlit(">");
            reveal_strlit("#");
            reveal_strlit(";");
            assert(frags.take(0) =~= Seq::<UtxoView>::empty());
        }
        let ghost head = pre@;
        let mut j: usize = 0;
        while j < k
            invariant
                self.wf(),
                idx < self.accounts.len(),
                frags == utxo_views(self.accounts[idx as int].utxos@),
                k <= frags.len(),
                j <= k,
                pre@ == head + inputs_text(frags.take(j as int)),
            decreases k - j,
        {
            let u = &self.accounts[idx].utxos[j];
            let u_id = u.get_tx_id();
            pre.append(u_id.as_str());
            pre.append("#");
            push_decimal(&mut pre, u.get_output_index() as u128);
            pre.append(";");
            proof {
                reveal_strlit("#");
                reveal_strlit(";");
                let t = frags.take(j + 1);
                assert(t.drop_last() =~= frags.take(j as int));
                assert(t.last() == u@);
                assert(pre@ =~= head + inputs_text(t));
            }
            j = j + 1;
        }
        proof {
            assert(pre@ =~= tx_id_preimage(count, from@, to@, amount as nat, frags.take(k as int)));
        }
        let id = digest(pre.as_str());

        // Spend the selected outputs.
        let ghost old_model = self.model@;
        let ghost old_accounts = self.accounts@;
        let rest = self.accounts[idx].utxos.split_off(k);
        let mut inputs = rest;
        std::mem::swap(&mut self.accounts[idx].utxos, &mut inputs);
        self.model = Ghost(old_model.insert(from@, frags.skip(k as int)));
        proof {
            assert(self.accounts.len() == old_accounts.len());
            assert(forall|j: int|
                0 <= j < self.accounts.len() && j != idx ==> self.accounts[j] == old_accounts[j]);
            assert(utxo_views(self.accounts[idx as int].utxos@) =~= frags.skip(k as int));
            assert(utxo_views(inputs@) =~= frags.take(k as int));
            assert forall|i: int| 0 <= i < self.accounts.len() implies {
                &&& #[trigger] self.model@.contains_key(self.accounts[i].owner@)
                &&& self.model@[self.accounts[i].owner@] == utxo_views(self.accounts[i].utxos@)
            } by {
                if i != idx {
                    assert(old_model.contains_key(old_accounts[i].owner@));
                }
            }
            assert forall|o: Seq<char>| #[trigger] self.model@.contains_key(o) implies exists|j: int|
                0 <= j < self.accounts.len() && self.accounts[j].owner@ == o by {
                if o != from@ {
                    assert(old_model.contains_key(o));
                } else {
                    assert(self.accounts[idx as int].owner@ == o);
                }
            }
        }

        // Credit the receiver, then the change.
        let mut outputs: Vec<UTXO> = Vec::new();
        outputs.push(UTXO::new(id.clone(), 0, amount, to.clone()));
        self.add_utxo(UTXO::new(id.clone(), 0, amount, to.clone()));
        if total > amount as u128 {
            proof {
                assert(frags.take(k as int).drop_last() =~= frags.take(k - 1));
                assert(frags[k - 1] == old_accounts[idx as int].utxos@[k - 1]@);
                lemma_amount_fits(old_accounts[idx as int].utxos@[k - 1]);
            }
            let change = (total - amount as u128) as u64;
            outputs.push(UTXO::new(id.clone(), 1, change, from.clone()));
            self.add_utxo(UTXO::new(id.clone(), 1, change, from.clone()));
            assert(utxo_views(outputs@) =~= transfer_outputs(
                id@,
                from@,
                to@,
                amount as nat,
                total as nat,
            ));
        } else {
            assert(utxo_views(outputs@) =~= transfer_outputs(
                id@,
                from@,
                to@,
                amount as nat,
                total as nat,
            ));
        }
        self.tx_count = if self.tx_count < u64::MAX {
            self.tx_count + 1
        } else {
            0
        };
        assert(self.wf());
        Some(Transaction::new(id, inputs, outputs))
    }
}

} // verus!
