use vstd::prelude::*;

use crate::random::Rng;

verus! {

/// Letters and digits, the characters of every generated password.
pub open spec fn alnum_chars() -> Seq<char> {
    "ABCDEFGHIJKLMNOPQRSTUVWXYZabcdefghijklmnopqrstuvwxyz0123456789"@
}

/// The ASCII punctuation that a generated password may also hold.
pub open spec fn symbol_chars() -> Seq<char> {
    "!\"#$%&'()*+,-./:;<=>?@[\\]^_`{|}~"@
}

/// The characters a password is drawn from: letters and digits, and the
/// punctuation too unless `no_symbols` is set.
pub open spec fn charset(no_symbols: bool) -> Seq<char> {
    if no_symbols {
        alnum_chars()
    } else {
        alnum_chars() + symbol_chars()
    }
}

/// An ASCII letter or digit.
pub open spec fn is_ascii_alphanumeric(c: char) -> bool {
    ('A' <= c <= 'Z') || ('a' <= c <= 'z') || ('0' <= c <= '9')
}

/// The characters a password is drawn from, as a string.
pub fn password_charset(no_symbols: bool) -> (s: String)
    ensures
        s@ == charset(no_symbols),
{
    let mut s = String::from_str("ABCDEFGHIJKLMNOPQRSTUVWXYZabcdefghijklmnopqrstuvwxyz0123456789");
    if !no_symbols {
        s.append("!\"#$%&'()*+,-./:;<=>?@[\\]^_`{|}~");
    }
    s
}

/// The password whose `i`-th character is `charset[indices[i]]`.
pub fn password_from_indices(charset: &str, indices: &Vec<usize>) -> (password: String)
    requires
        forall|i: int| 0 <= i < indices@.len() ==> #[trigger] indices@[i] < charset@.len(),
    ensures
        password@.len() == indices@.len(),
        forall|i: int|
            0 <= i < indices@.len() ==> #[trigger] password@[i] == charset@[indices@[i] as int],
{
    let n = charset.unicode_len();
    let mut password = String::new();
    let mut i: usize = 0;
    while i < indices.len()
        invariant
            n == charset@.len(),
            i <= indices@.len(),
            forall|j: int| 0 <= j < indices@.len() ==> #[trigger] indices@[j] < charset@.len(),
            password@.len() == i,
            forall|j: int| 0 <= j < i ==> #[trigger] password@[j] == charset@[indices@[j] as int],
        decreases indices@.len() - i,
    {
        let k = indices[i];
        password.append(charset.substring_char(k, k + 1));
        i = i + 1;
    }
    password
}

proof fn lemma_alnum_chars()
    ensures
        alnum_chars().len() == 62,
        forall|i: int| 0 <= i < 62 ==> is_ascii_alphanumeric(#[trigger] alnum_chars()[i]),
{
    reveal_strlit("ABCDEFGHIJKLMNOPQRSTUVWXYZabcdefghijklmnopqrstuvwxyz0123456789");
}

/// The password that a run of draws spells: the `i`-th character is the
/// character of the set at the `i`-th draw.
pub open spec fn password_of_draws(draws: Seq<usize>, no_symbols: bool) -> Seq<char> {
    draws.map_values(|d: usize| charset(no_symbols)[d as int])
}

/// One character per draw: the password of a run of draws is as long as the
/// run, and its `i`-th character is the set's character at the `i`-th draw.
pub proof fn lemma_password_of_draws(draws: Seq<usize>, no_symbols: bool)
    ensures
        password_of_draws(draws, no_symbols).len() == draws.len(),
        forall|i: int|
            0 <= i < draws.len() ==> #[trigger] password_of_draws(draws, no_symbols)[i] == charset(
                no_symbols,
            )[draws[i] as int],
{
}

/// Generates a password of `length` characters from `rng`: it draws exactly
/// `length` fresh numbers below the size of the character set, and the
/// `i`-th character is the set's character at the `i`-th of them.
pub fn generate_password_with(rng: &mut Rng, length: usize, no_symbols: bool) -> (password: String)
    ensures
        final(rng)@.len() == old(rng)@.len() + length,
        final(rng)@.take(old(rng)@.len() as int) == old(rng)@,
        forall|i: int|
            old(rng)@.len() <= i < final(rng)@.len() ==> #[trigger] final(rng)@[i] < charset(
                no_symbols,
            ).len(),
        password@ == password_of_draws(final(rng)@.skip(old(rng)@.len() as int), no_symbols),
        password@.len() == length,
        forall|i: int|
            0 <= i < length ==> #[trigger] password@[i] == charset(no_symbols)[final(rng)@[old(
                rng,
            )@.len() + i] as int],
{
    let chars = password_charset(no_symbols);
    let n = chars.unicode_len();
    proof {
        lemma_alnum_chars();
    }
    let ghost start = rng@;
    let mut indices: Vec<usize> = Vec::new();
    let mut k: usize = 0;
    while k < length
        invariant
            k <= length,
            n == chars@.len(),
            chars@ == charset(no_symbols),
            n > 0,
            indices@.len() == k,
            rng@ == start + indices@,
            forall|j: int| 0 <= j < k ==> #[trigger] indices@[j] < n,
        decreases length - k,
    {
        let idx = rng.draw(n);
        indices.push(idx);
        k = k + 1;
        assert(rng@ =~= start + indices@);
    }
    let password = password_from_indices(chars.as_str(), &indices);
    assert(rng@.take(start.len() as int) =~= start);
    assert(rng@.skip(start.len() as int) =~= indices@);
    assert(password@ =~= password_of_draws(indices@, no_symbols));
    password
}

/// Generates a random password of `length` characters, drawn from letters
/// and digits, plus punctuation unless `no_symbols` is set: each character is
/// a fresh draw from the thread's generator (`generate_password_with`).
pub fn generate_password(length: usize, no_symbols: bool) -> (password: String)
    ensures
        password@.len() == length,
        forall|i: int| 0 <= i < length ==> charset(no_symbols).contains(#[trigger] password@[i]),
        no_symbols ==> forall|i: int| 0 <= i < length ==> is_ascii_alphanumeric(#[trigger] password@[i]),
{
    proof {
        lemma_alnum_chars();
    }
    let mut rng = Rng::new();
    let password = generate_password_with(&mut rng, length, no_symbols);
    assert forall|i: int| 0 <= i < length implies charset(no_symbols).contains(#[trigger] password@[i]) by {
        assert(password@[i] == charset(no_symbols)[rng@[i] as int]);
    }
    assert forall|i: int| no_symbols && 0 <= i < length implies is_ascii_alphanumeric(
        #[trigger] password@[i],
    ) by {
        assert(password@[i] == charset(no_symbols)[rng@[i] as int]);
    }
    password
}

} // verus!
