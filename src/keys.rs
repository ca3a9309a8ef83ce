use vstd::prelude::*;

verus! {

/// The decimal digit `d` (below ten) as a character.
pub open spec fn digit_char(d: nat) -> char {
    if d == 0 {
        '0'
    } else if d == 1 {
        '1'
    } else if d == 2 {
        '2'
    } else if d == 3 {
        '3'
    } else if d == 4 {
        '4'
    } else if d == 5 {
        '5'
    } else if d == 6 {
        '6'
    } else if d == 7 {
        '7'
    } else if d == 8 {
        '8'
    } else {
        '9'
    }
}

/// `n` written in decimal, most significant digit first, without leading zeros.
pub open spec fn decimal(n: nat) -> Seq<char>
    decreases n,
{
    if n < 10 {
        seq![digit_char(n)]
    } else {
        decimal(n / 10).push(digit_char(n % 10))
    }
}

/// Relies on `u64`'s `to_string`, which writes the number in decimal.
#[verifier::external_body]
pub(crate) fn decimal_string(n: u64) -> (r: String)
    ensures
        r@ == decimal(n as nat),
{
    n.to_string()
}

proof fn lemma_decimal_len(n: nat)
    ensures
        n < 10 ==> decimal(n).len() == 1,
        n >= 10 ==> decimal(n).len() >= 2,
    decreases n,
{
    if n >= 10 {
        lemma_decimal_len(n / 10);
    }
}

/// Different numbers have different decimal forms.
pub proof fn lemma_decimal_injective(a: nat, b: nat)
    requires
        decimal(a) == decimal(b),
    ensures
        a == b,
    decreases a,
{
    lemma_decimal_len(a);
    lemma_decimal_len(b);
    if a >= 10 && b >= 10 {
        let da = decimal(a);
        assert(da.last() == digit_char(a % 10));
        assert(decimal(b).last() == digit_char(b % 10));
        assert(a % 10 == b % 10);
        assert(decimal(a / 10) =~= da.drop_last());
        assert(decimal(b / 10) =~= decimal(b).drop_last());
        lemma_decimal_injective(a / 10, b / 10);
    } else if a < 10 && b < 10 {
        assert(decimal(a)[0] == digit_char(a));
        assert(decimal(b)[0] == digit_char(b));
    }
}

/// The key prefix shared by every record of the index called `name`.
pub open spec fn key_prefix(name: Seq<char>) -> Seq<char> {
    "sync.manager.txs."@ + name
}

/// The key that holds how many elements the index `name` has.
pub open spec fn count_key(name: Seq<char>) -> Seq<char> {
    key_prefix(name) + ".count"@
}

/// The key that holds the slot of `seq` in the index `name`.
pub open spec fn seq_key(name: Seq<char>, seq: u64) -> Seq<char> {
    key_prefix(name) + ".seq2index."@ + decimal(seq as nat)
}

/// The key that holds the element at `slot` in the index `name`.
pub open spec fn slot_key(name: Seq<char>, slot: nat) -> Seq<char> {
    key_prefix(name) + ".index2seq."@ + decimal(slot)
}

/// The three kinds of keys never meet, and within a kind different numbers
/// give different keys.
pub proof fn lemma_keys_distinct(name: Seq<char>)
    ensures
        forall|s: u64| #[trigger] seq_key(name, s) != count_key(name),
        forall|i: nat| #[trigger] slot_key(name, i) != count_key(name),
        forall|s: u64, i: nat| #[trigger] seq_key(name, s) != #[trigger] slot_key(name, i),
        forall|a: u64, b: u64| a != b ==> #[trigger] seq_key(name, a) != #[trigger] seq_key(name, b),
        forall|a: nat, b: nat|
            a != b ==> #[trigger] slot_key(name, a) != #[trigger] slot_key(name, b),
{
    reveal_strlit("sync.manager.txs.");
    reveal_strlit(".count");
    reveal_strlit(".seq2index.");
    reveal_strlit(".index2seq.");
    let p = key_prefix(name);
    let n = p.len() as int;
    assert forall|s: u64| #[trigger] seq_key(name, s) != count_key(name) by {
        assert(seq_key(name, s)[n + 1] == 's');
        assert(count_key(name)[n + 1] == 'c');
    }
    assert forall|i: nat| #[trigger] slot_key(name, i) != count_key(name) by {
        assert(slot_key(name, i)[n + 1] == 'i');
        assert(count_key(name)[n + 1] == 'c');
    }
    assert forall|s: u64, i: nat| #[trigger] seq_key(name, s) != #[trigger] slot_key(name, i) by {
        assert(seq_key(name, s)[n + 1] == 's');
        assert(slot_key(name, i)[n + 1] == 'i');
    }
    assert forall|a: u64, b: u64| a != b implies #[trigger] seq_key(name, a) != #[trigger] seq_key(
        name,
        b,
    ) by {
        if seq_key(name, a) == seq_key(name, b) {
            assert(seq_key(name, a).subrange(n + 11, seq_key(name, a).len() as int) =~= decimal(a as nat));
            assert(seq_key(name, b).subrange(n + 11, seq_key(name, b).len() as int) =~= decimal(b as nat));
            lemma_decimal_injective(a as nat, b as nat);
        }
    }
    assert forall|a: nat, b: nat| a != b implies #[trigger] slot_key(name, a) != #[trigger] slot_key(
        name,
        b,
    ) by {
        if slot_key(name, a) == slot_key(name, b) {
            assert(slot_key(name, a).subrange(n + 11, slot_key(name, a).len() as int) =~= decimal(a));
            assert(slot_key(name, b).subrange(n + 11, slot_key(name, b).len() as int) =~= decimal(b));
            lemma_decimal_injective(a, b);
        }
    }
}

} // verus!
