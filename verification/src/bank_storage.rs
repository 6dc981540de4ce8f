use crate::bank::Amount;
use crate::bank::BankCommand;
use crate::bank::BankCommandV;
use crate::bank::BankError;
use crate::bank::fits_amount;
use crate::storage::TextConverter;
use vstd::prelude::*;

verus! {

// ---------------------------------------------------------------------------
// The line grammar.
//
// One command is one line of JSON text in the fixed shape the domain uses:
//
//   {"CreateAccount":{"id":"<id>","name":"<name>"}}
//   {"Deposit":{"account_id":"<id>","amount":"<n>"}}
//   {"Withdrawal":{"account_id":"<id>","amount":"<n>"}}
//   {"Transfer":{"from_account_id":"<f>","to_account_id":"<t>","amount":"<n>"}}
//
// String fields carry their text verbatim, so they must be plain: no
// quote, no backslash, no control character (in particular no newline).
// Amounts are whole numbers in canonical decimal form.
// ---------------------------------------------------------------------------
pub open spec fn lit_create() -> Seq<char> {
    "{\"CreateAccount\":{\"id\":\""@
}

pub open spec fn lit_deposit() -> Seq<char> {
    "{\"Deposit\":{\"account_id\":\""@
}

pub open spec fn lit_withdrawal() -> Seq<char> {
    "{\"Withdrawal\":{\"account_id\":\""@
}

pub open spec fn lit_transfer() -> Seq<char> {
    "{\"Transfer\":{\"from_account_id\":\""@
}

pub open spec fn lit_name() -> Seq<char> {
    "\",\"name\":\""@
}

pub open spec fn lit_to() -> Seq<char> {
    "\",\"to_account_id\":\""@
}

pub open spec fn lit_amount() -> Seq<char> {
    "\",\"amount\":\""@
}

pub open spec fn lit_close() -> Seq<char> {
    "\"}}"@
}

/// A character that a string field can carry verbatim.
pub open spec fn plain_char(c: char) -> bool {
    c != '"' && c != '\\' && (c as u32) >= 32
}

/// Text that a string field can carry verbatim.
pub open spec fn plain(s: Seq<char>) -> bool {
    forall|i: int| 0 <= i < s.len() ==> plain_char(#[trigger] s[i])
}

pub open spec fn is_digit(c: char) -> bool {
    48 <= (c as u32) <= 57
}

pub open spec fn digit_val(c: char) -> int {
    (c as u32) as int - 48
}

pub open spec fn digit_char(d: int) -> char {
    if d == 0 {
        '0'
    } else if d == 1 {
        '1'
    } else if d == 2 {
        '2'
    } else if d == 3 {
        '3'
    } else if d == 4 {
        '4'
    } else if d == 5 {
        '5'
    } else if d == 6 {
        '6'
    } else if d == 7 {
        '7'
    } else if d == 8 {
        '8'
    } else {
        '9'
    }
}

/// The decimal digits of `k`, most significant first.
pub open spec fn spec_digits(k: int) -> Seq<char>
    recommends
        k >= 0,
    decreases k,
{
    if k < 10 {
        seq![digit_char(k)]
    } else {
        spec_digits(k / 10).push(digit_char(k % 10))
    }
}

/// The canonical text of the whole number `n`.
pub open spec fn amount_chars(n: int) -> Seq<char> {
    if n >= 0 {
        spec_digits(n)
    } else {
        seq!['-'] + spec_digits(-n)
    }
}

/// Canonical digit text: nonempty, all digits, no leading zero.
pub open spec fn digits_ok(t: Seq<char>) -> bool {
    &&& t.len() > 0
    &&& forall|i: int| 0 <= i < t.len() ==> is_digit(#[trigger] t[i])
    &&& (t[0] != '0' || t.len() == 1)
}

/// The value of digit text, most significant first.
pub open spec fn digits_val(t: Seq<char>) -> int
    decreases t.len(),
{
    if t.len() == 0 {
        0
    } else {
        digits_val(t.drop_last()) * 10 + digit_val(t.last())
    }
}

/// The number a quoted amount field holds, if it is canonical and fits.
pub open spec fn spec_amount_of(t: Seq<char>) -> Option<int> {
    if t.len() >= 1 && t[0] == '-' {
        let d = t.skip(1);
        if digits_ok(d) && digits_val(d) > 0 && -digits_val(d) >= i64::MIN {
            Some(-digits_val(d))
        } else {
            None
        }
    } else if digits_ok(t) && digits_val(t) <= i64::MAX {
        Some(digits_val(t))
    } else {
        None
    }
}

/// `lit` occurs in `s` at position `pos`.
pub open spec fn has_prefix_at(s: Seq<char>, pos: int, lit: Seq<char>) -> bool {
    &&& 0 <= pos
    &&& pos + lit.len() <= s.len()
    &&& s.subrange(pos, pos + lit.len()) == lit
}

/// The first position at or past `pos` holding a quote.
pub open spec fn find_quote_from(s: Seq<char>, pos: int) -> Option<int>
    decreases s.len() - pos,
{
    if pos < 0 || pos >= s.len() {
        None
    } else if s[pos] == '"' {
        Some(pos)
    } else {
        find_quote_from(s, pos + 1)
    }
}

/// The line that a command encodes to.
pub open spec fn spec_format(v: BankCommandV) -> Result<Seq<char>, BankError> {
    match v {
        BankCommandV::CreateAccount { id, name } => {
            if plain(id) && plain(name) {
                Ok(lit_create() + id + lit_name() + name + lit_close())
            } else {
                Err(BankError::UnencodableText)
            }
        },
        BankCommandV::Deposit { account_id, amount } => {
            if plain(account_id) && fits_amount(amount) {
                Ok(lit_deposit() + account_id + lit_amount() + amount_chars(amount) + lit_close())
            } else {
                Err(BankError::UnencodableText)
            }
        },
        BankCommandV::Withdrawal { account_id, amount } => {
            if plain(account_id) && fits_amount(amount) {
                Ok(
                    lit_withdrawal() + account_id + lit_amount() + amount_chars(amount)
                        + lit_close(),
                )
            } else {
                Err(BankError::UnencodableText)
            }
        },
        BankCommandV::Transfer { from_account_id, to_account_id, amount } => {
            if plain(from_account_id) && plain(to_account_id) && fits_amount(amount) {
                Ok(
                    lit_transfer() + from_account_id + lit_to() + to_account_id + lit_amount()
                        + amount_chars(amount) + lit_close(),
                )
            } else {
                Err(BankError::UnencodableText)
            }
        },
    }
}

/// A string field together with the position right past it: the text up
/// to the next quote.
pub open spec fn spec_field(s: Seq<char>, pos: int) -> Option<(Seq<char>, int)> {
    match find_quote_from(s, pos) {
        Some(q) => Some((s.subrange(pos, q), q)),
        None => None,
    }
}

/// The command a line decodes to.
pub open spec fn spec_parse(s: Seq<char>) -> Result<BankCommandV, BankError> {
    if has_prefix_at(s, 0, lit_create()) {
        spec_parse_create(s)
    } else if has_prefix_at(s, 0, lit_deposit()) {
        spec_parse_one_amount(s, lit_deposit().len() as int, true)
    } else if has_prefix_at(s, 0, lit_withdrawal()) {
        spec_parse_one_amount(s, lit_withdrawal().len() as int, false)
    } else if has_prefix_at(s, 0, lit_transfer()) {
        spec_parse_transfer(s)
    } else {
        Err(BankError::MalformedEntry)
    }
}

pub open spec fn spec_parse_create(s: Seq<char>) -> Result<BankCommandV, BankError> {
    match spec_field(s, lit_create().len() as int) {
        Some((id, q1)) => {
            if has_prefix_at(s, q1, lit_name()) {
                match spec_field(s, q1 + lit_name().len()) {
                    Some((name, q2)) => {
                        if has_prefix_at(s, q2, lit_close()) && q2 + lit_close().len() == s.len() {
                            Ok(BankCommandV::CreateAccount { id, name })
                        } else {
                            Err(BankError::MalformedEntry)
                        }
                    },
                    None => Err(BankError::MalformedEntry),
                }
            } else {
                Err(BankError::MalformedEntry)
            }
        },
        None => Err(BankError::MalformedEntry),
    }
}

/// Parse `{"..":{"account_id":"<id>","amount":"<n>"}}` past its opening
/// literal; `deposit` tells which command it denotes.
pub open spec fn spec_parse_one_amount(s: Seq<char>, pos: int, deposit: bool) -> Result<
    BankCommandV,
    BankError,
> {
    match spec_field(s, pos) {
        Some((account_id, q1)) => {
            if has_prefix_at(s, q1, lit_amount()) {
                match spec_field(s, q1 + lit_amount().len()) {
                    Some((digits, q2)) => {
                        if has_prefix_at(s, q2, lit_close()) && q2 + lit_close().len() == s.len() {
                            match spec_amount_of(digits) {
                                Some(amount) => {
                                    if deposit {
                                        Ok(BankCommandV::Deposit { account_id, amount })
                                    } else {
                                        Ok(BankCommandV::Withdrawal { account_id, amount })
                                    }
                                },
                                None => Err(BankError::MalformedEntry),
                            }
                        } else {
                            Err(BankError::MalformedEntry)
                        }
                    },
                    None => Err(BankError::MalformedEntry),
                }
            } else {
                Err(BankError::MalformedEntry)
            }
        },
        None => Err(BankError::MalformedEntry),
    }
}

pub open spec fn spec_parse_transfer(s: Seq<char>) -> Result<BankCommandV, BankError> {
    match spec_field(s, lit_transfer().len() as int) {
        Some((from_account_id, q1)) => {
            if has_prefix_at(s, q1, lit_to()) {
                match spec_field(s, q1 + lit_to().len()) {
                    Some((to_account_id, q2)) => {
                        if has_prefix_at(s, q2, lit_amount()) {
                            match spec_field(s, q2 + lit_amount().len()) {
                                Some((digits, q3)) => {
                                    if has_prefix_at(s, q3, lit_close()) && q3 + lit_close().len()
                                        == s.len() {
                                        match spec_amount_of(digits) {
                                            Some(amount) => Ok(
                                                BankCommandV::Transfer {
                                                    from_account_id,
                                                    to_account_id,
                                                    amount,
                                                },
                                            ),
                                            None => Err(BankError::MalformedEntry),
                                        }
                                    } else {
                                        Err(BankError::MalformedEntry)
                                    }
                                },
                                None => Err(BankError::MalformedEntry),
                            }
                        } else {
                            Err(BankError::MalformedEntry)
                        }
                    },
                    None => Err(BankError::MalformedEntry),
                }
            } else {
                Err(BankError::MalformedEntry)
            }
        },
        None => Err(BankError::MalformedEntry),
    }
}


/// Every digit sequence of a nonnegative number is canonical and carries
/// the number's value.
proof fn lemma_digits(k: int)
    requires
        k >= 0,
    ensures
        digits_ok(spec_digits(k)),
        digits_val(spec_digits(k)) == k,
        k >= 1 ==> spec_digits(k)[0] != '0',
    decreases k,
{
    if k < 10 {
        let t = seq![digit_char(k)];
        assert(t.len() == 1);
        assert(t.last() == digit_char(k));
        assert(t.drop_last() =~= Seq::<char>::empty());
        assert(digits_val(t.drop_last()) == 0);
        assert(digits_val(t) == digit_val(digit_char(k)));
    } else {
        lemma_digits(k / 10);
        let t = spec_digits(k);
        let u = spec_digits(k / 10);
        assert(t == u.push(digit_char(k % 10)));
        assert(t.drop_last() =~= u);
        assert(t.last() == digit_char(k % 10));
        assert(digits_val(t) == digits_val(u) * 10 + digit_val(digit_char(k % 10)));
        assert(forall|i: int| 0 <= i < t.len() ==> is_digit(#[trigger] t[i]));
        assert(t[0] == u[0]);
    }
}

/// The canonical text of an amount parses back to the amount, and holds
/// only digits and a possible leading minus.
proof fn lemma_amount_round_trip(n: int)
    requires
        fits_amount(n),
    ensures
        spec_amount_of(amount_chars(n)) == Some(n),
        forall|i: int|
            0 <= i < amount_chars(n).len() ==> (is_digit(#[trigger] amount_chars(n)[i])
                || amount_chars(n)[i] == '-'),
{
    let t = amount_chars(n);
    if n >= 0 {
        lemma_digits(n);
        assert(t[0] != '-');
    } else {
        lemma_digits(-n);
        assert(t[0] == '-');
        assert(t.skip(1) =~= spec_digits(-n));
        assert(forall|i: int|
            1 <= i < t.len() ==> is_digit(#[trigger] t[i]) == is_digit(spec_digits(-n)[i - 1]));
    }
}

/// Digits and minus signs are plain text and are not quotes.
proof fn lemma_amount_plain(n: int)
    requires
        fits_amount(n),
    ensures
        plain(amount_chars(n)),
{
    lemma_amount_round_trip(n);
    assert forall|i: int| 0 <= i < amount_chars(n).len() implies plain_char(
        #[trigger] amount_chars(n)[i],
    ) by {
        let c = amount_chars(n)[i];
        assert(is_digit(c) || c == '-');
    }
}

/// Where the text between `pos` and `k` is free of quotes and a quote
/// stands at `k`, the first quote at or past `pos` is the one at `k`.
proof fn lemma_find_quote_at(s: Seq<char>, pos: int, k: int)
    requires
        0 <= pos <= k < s.len(),
        forall|j: int| pos <= j < k ==> s[j] != '"',
        s[k] == '"',
    ensures
        find_quote_from(s, pos) == Some(k),
    decreases k - pos,
{
    if pos < k {
        lemma_find_quote_at(s, pos + 1, k);
    }
}


/// Facts about the grammar's literals that the proofs lean on.
proof fn lemma_lits()
    ensures
        lit_create().len() >= 3,
        lit_deposit().len() >= 3,
        lit_withdrawal().len() >= 3,
        lit_transfer().len() >= 3,
        lit_create()[0] == '{',
        lit_deposit()[0] == '{',
        lit_withdrawal()[0] == '{',
        lit_transfer()[0] == '{',
        lit_create()[2] == 'C',
        lit_deposit()[2] == 'D',
        lit_withdrawal()[2] == 'W',
        lit_transfer()[2] == 'T',
        lit_name()[0] == '"',
        lit_to()[0] == '"',
        lit_amount()[0] == '"',
        lit_close()[0] == '"',
        lit_name().len() >= 1,
        lit_to().len() >= 1,
        lit_amount().len() >= 1,
        lit_close().len() == 3,
        no_newline(lit_create()),
        no_newline(lit_deposit()),
        no_newline(lit_withdrawal()),
        no_newline(lit_transfer()),
        no_newline(lit_name()),
        no_newline(lit_to()),
        no_newline(lit_amount()),
        no_newline(lit_close()),
{
    reveal_strlit("{\"CreateAccount\":{\"id\":\"");
    reveal_strlit("{\"Deposit\":{\"account_id\":\"");
    reveal_strlit("{\"Withdrawal\":{\"account_id\":\"");
    reveal_strlit("{\"Transfer\":{\"from_account_id\":\"");
    reveal_strlit("\",\"name\":\"");
    reveal_strlit("\",\"to_account_id\":\"");
    reveal_strlit("\",\"amount\":\"");
    reveal_strlit("\"}}");
}

/// Text free of ordinary quotes.
spec fn quote_free(x: Seq<char>) -> bool {
    forall|i: int| 0 <= i < x.len() ==> #[trigger] x[i] != '"'
}

/// Scanning `s` from `pos` finds exactly the field `x` when `s` carries
/// `x` there, `x` holds no quote, and the text after `x` opens with one.
proof fn lemma_scan_field(s: Seq<char>, pos: int, x: Seq<char>)
    requires
        0 <= pos,
        pos + x.len() < s.len(),
        s.subrange(pos, pos + x.len()) == x,
        quote_free(x),
        s[pos + x.len()] == '"',
    ensures
        spec_field(s, pos) == Some((x, pos + x.len())),
{
    assert forall|j: int| pos <= j < pos + x.len() implies s[j] != '"' by {
        assert(s.subrange(pos, pos + x.len())[j - pos] == s[j]);
    }
    lemma_find_quote_at(s, pos, pos + x.len());
}

/// The JSON converter for bank commands: one command per line, in the
/// line grammar above.
pub struct BankJsonConverter;

impl TextConverter<BankCommand> for BankJsonConverter {
    type Failure = BankError;

    open spec fn format_spec(&self, value: BankCommandV) -> Result<Seq<char>, BankError> {
        spec_format(value)
    }

    open spec fn parse_spec(&self, text: Seq<char>) -> Result<BankCommandV, BankError> {
        spec_parse(text)
    }

    proof fn round_trip(&self, value: BankCommandV) {
        lemma_lits();
        match value {
            BankCommandV::CreateAccount { id, name } => {
                lemma_round_trip_create(id, name);
            },
            BankCommandV::Deposit { account_id, amount } => {
                lemma_round_trip_amount_cmd(account_id, amount, true);
            },
            BankCommandV::Withdrawal { account_id, amount } => {
                lemma_round_trip_amount_cmd(account_id, amount, false);
            },
            BankCommandV::Transfer { from_account_id, to_account_id, amount } => {
                lemma_round_trip_transfer(from_account_id, to_account_id, amount);
            },
        }
    }

    fn parse(&self, text: &str) -> (r: Result<BankCommand, BankError>) {
        parse_line(text)
    }

    fn format(&self, value: &BankCommand) -> (r: Result<String, BankError>) {
        match value {
            BankCommand::CreateAccount { id, name } => {
                if !is_plain(id.as_str()) || !is_plain(name.as_str()) {
                    return Err(BankError::UnencodableText);
                }
                let mut s = String::from_str("{\"CreateAccount\":{\"id\":\"");
                s.append(id.as_str());
                s.append("\",\"name\":\"");
                s.append(name.as_str());
                s.append("\"}}");
                proof {
                    assert(s@ =~= spec_format(value.deep_view())->Ok_0);
                }
                Ok(s)
            },
            BankCommand::Deposit { account_id, amount } => {
                if !is_plain(account_id.as_str()) {
                    return Err(BankError::UnencodableText);
                }
                let mut s = String::from_str("{\"Deposit\":{\"account_id\":\"");
                s.append(account_id.as_str());
                s.append("\",\"amount\":\"");
                let digits = fmt_amount(amount.units);
                s.append(digits.as_str());
                s.append("\"}}");
                proof {
                    assert(s@ =~= spec_format(value.deep_view())->Ok_0);
                }
                Ok(s)
            },
            BankCommand::Withdrawal { account_id, amount } => {
                if !is_plain(account_id.as_str()) {
                    return Err(BankError::UnencodableText);
                }
                let mut s = String::from_str("{\"Withdrawal\":{\"account_id\":\"");
                s.append(account_id.as_str());
                s.append("\",\"amount\":\"");
                let digits = fmt_amount(amount.units);
                s.append(digits.as_str());
                s.append("\"}}");
                proof {
                    assert(s@ =~= spec_format(value.deep_view())->Ok_0);
                }
                Ok(s)
            },
            BankCommand::Transfer { from_account_id, to_account_id, amount } => {
                if !is_plain(from_account_id.as_str()) || !is_plain(to_account_id.as_str()) {
                    return Err(BankError::UnencodableText);
                }
                let mut s = String::from_str("{\"Transfer\":{\"from_account_id\":\"");
                s.append(from_account_id.as_str());
                s.append("\",\"to_account_id\":\"");
                s.append(to_account_id.as_str());
                s.append("\",\"amount\":\"");
                let digits = fmt_amount(amount.units);
                s.append(digits.as_str());
                s.append("\"}}");
                proof {
                    assert(s@ =~= spec_format(value.deep_view())->Ok_0);
                }
                Ok(s)
            },
        }
    }
}

/// An encoded account-opening line decodes to the account opening.
proof fn lemma_round_trip_create(id: Seq<char>, name: Seq<char>)
    requires
        plain(id),
        plain(name),
    ensures
        spec_parse(lit_create() + id + lit_name() + name + lit_close()) == Ok::<_, BankError>(
            BankCommandV::CreateAccount { id, name },
        ),
        no_newline(lit_create() + id + lit_name() + name + lit_close()),
{
    lemma_lits();
    let s = lit_create() + id + lit_name() + name + lit_close();
    let p1 = lit_create().len() as int;
    let q1 = p1 + id.len() as int;
    let p2 = q1 + lit_name().len() as int;
    let q2 = p2 + name.len() as int;
    assert(s.subrange(0, p1) =~= lit_create());
    assert(s.subrange(p1, q1) =~= id);
    assert(s.subrange(q1, p2) =~= lit_name());
    assert(s.subrange(p2, q2) =~= name);
    assert(s.subrange(q2, s.len() as int) =~= lit_close());
    assert(s.subrange(q1, p2)[0] == s[q1]);
    assert(s.subrange(q2, s.len() as int)[0] == s[q2]);
    assert(s[q1] == lit_name()[0]);
    assert(s[q2] == lit_close()[0]);
    lemma_scan_field(s, p1, id);
    lemma_scan_field(s, p2, name);
    assert(has_prefix_at(s, 0, lit_create()));
    assert(has_prefix_at(s, q1, lit_name()));
    assert(has_prefix_at(s, q2, lit_close()));
    assert(spec_parse_create(s) == Ok::<_, BankError>(BankCommandV::CreateAccount { id, name }));
    lemma_plain_no_newline(id);
    lemma_plain_no_newline(name);
    lemma_no_newline_concat(lit_create(), id);
    lemma_no_newline_concat(lit_create() + id, lit_name());
    lemma_no_newline_concat(lit_create() + id + lit_name(), name);
    lemma_no_newline_concat(lit_create() + id + lit_name() + name, lit_close());
}

/// Text free of line terminators.
pub open spec fn no_newline(s: Seq<char>) -> bool {
    forall|i: int| 0 <= i < s.len() ==> #[trigger] s[i] != '\n'
}

proof fn lemma_no_newline_concat(a: Seq<char>, b: Seq<char>)
    requires
        no_newline(a),
        no_newline(b),
    ensures
        no_newline(a + b),
{
    assert forall|i: int| 0 <= i < (a + b).len() implies (a + b)[i] != '\n' by {
        if i < a.len() {
            assert((a + b)[i] == a[i]);
        } else {
            assert((a + b)[i] == b[i - a.len()]);
        }
    }
}

proof fn lemma_plain_no_newline(x: Seq<char>)
    requires
        plain(x),
    ensures
        no_newline(x),
{
    assert forall|i: int| 0 <= i < x.len() implies x[i] != '\n' by {
        assert(plain_char(x[i]));
    }
}

proof fn lemma_digits_no_newline(n: int)
    requires
        fits_amount(n),
    ensures
        no_newline(amount_chars(n)),
{
    lemma_amount_plain(n);
    lemma_plain_no_newline(amount_chars(n));
}

/// An encoded deposit or withdrawal line decodes to the command.
proof fn lemma_round_trip_amount_cmd(account_id: Seq<char>, amount: int, deposit: bool)
    requires
        plain(account_id),
        fits_amount(amount),
    ensures
        ({
            let lit = if deposit {
                lit_deposit()
            } else {
                lit_withdrawal()
            };
            let s = lit + account_id + lit_amount() + amount_chars(amount) + lit_close();
            &&& spec_parse(s) == Ok::<_, BankError>(
                if deposit {
                    BankCommandV::Deposit { account_id, amount }
                } else {
                    BankCommandV::Withdrawal { account_id, amount }
                },
            )
            &&& no_newline(s)
        }),
{
    lemma_lits();
    lemma_amount_round_trip(amount);
    lemma_amount_plain(amount);
    let lit = if deposit {
        lit_deposit()
    } else {
        lit_withdrawal()
    };
    let digits = amount_chars(amount);
    let s = lit + account_id + lit_amount() + digits + lit_close();
    let p1 = lit.len() as int;
    let q1 = p1 + account_id.len() as int;
    let p2 = q1 + lit_amount().len() as int;
    let q2 = p2 + digits.len() as int;
    assert(s.subrange(0, p1) =~= lit);
    assert(s.subrange(p1, q1) =~= account_id);
    assert(s.subrange(q1, p2) =~= lit_amount());
    assert(s.subrange(p2, q2) =~= digits);
    assert(s.subrange(q2, s.len() as int) =~= lit_close());
    assert(s.subrange(q1, p2)[0] == s[q1]);
    assert(s.subrange(q2, s.len() as int)[0] == s[q2]);
    assert(s[q1] == lit_amount()[0]);
    assert(s[q2] == lit_close()[0]);
    assert(quote_free(digits)) by {
        assert forall|i: int| 0 <= i < digits.len() implies digits[i] != '"' by {
            assert(is_digit(digits[i]) || digits[i] == '-');
        }
    }
    lemma_scan_field(s, p1, account_id);
    lemma_scan_field(s, p2, digits);
    assert(has_prefix_at(s, 0, lit));
    assert(has_prefix_at(s, q1, lit_amount()));
    assert(has_prefix_at(s, q2, lit_close()));
    // The line opens with its own literal and with no other.
    if deposit {
        if has_prefix_at(s, 0, lit_create()) {
            assert(s.subrange(0, lit_create().len() as int)[2] == s[2]);
            assert(false);
        }
        assert(spec_parse_one_amount(s, p1, true) == Ok::<_, BankError>(
            BankCommandV::Deposit { account_id, amount },
        ));
    } else {
        if has_prefix_at(s, 0, lit_create()) {
            assert(s.subrange(0, lit_create().len() as int)[2] == s[2]);
            assert(false);
        }
        if has_prefix_at(s, 0, lit_deposit()) {
            assert(s.subrange(0, lit_deposit().len() as int)[2] == s[2]);
            assert(false);
        }
        assert(spec_parse_one_amount(s, p1, false) == Ok::<_, BankError>(
            BankCommandV::Withdrawal { account_id, amount },
        ));
    }
    lemma_plain_no_newline(account_id);
    lemma_digits_no_newline(amount);
    lemma_no_newline_concat(lit, account_id);
    lemma_no_newline_concat(lit + account_id, lit_amount());
    lemma_no_newline_concat(lit + account_id + lit_amount(), digits);
    lemma_no_newline_concat(lit + account_id + lit_amount() + digits, lit_close());
}

/// An encoded transfer line decodes to the transfer.
#[verifier::rlimit(60)]
proof fn lemma_round_trip_transfer(from_account_id: Seq<char>, to_account_id: Seq<char>, amount: int)
    requires
        plain(from_account_id),
        plain(to_account_id),
        fits_amount(amount),
    ensures
        ({
            let s = lit_transfer() + from_account_id + lit_to() + to_account_id + lit_amount()
                + amount_chars(amount) + lit_close();
            &&& spec_parse(s) == Ok::<_, BankError>(
                BankCommandV::Transfer { from_account_id, to_account_id, amount },
            )
            &&& no_newline(s)
        }),
{
    lemma_lits();
    lemma_amount_round_trip(amount);
    lemma_amount_plain(amount);
    let digits = amount_chars(amount);
    let s = lit_transfer() + from_account_id + lit_to() + to_account_id + lit_amount() + digits
        + lit_close();
    let p1 = lit_transfer().len() as int;
    let q1 = p1 + from_account_id.len() as int;
    let p2 = q1 + lit_to().len() as int;
    let q2 = p2 + to_account_id.len() as int;
    let p3 = q2 + lit_amount().len() as int;
    let q3 = p3 + digits.len() as int;
    assert(s.subrange(0, p1) =~= lit_transfer());
    assert(s.subrange(p1, q1) =~= from_account_id);
    assert(s.subrange(q1, p2) =~= lit_to());
    assert(s.subrange(p2, q2) =~= to_account_id);
    assert(s.subrange(q2, p3) =~= lit_amount());
    assert(s.subrange(p3, q3) =~= digits);
    assert(s.subrange(q3, s.len() as int) =~= lit_close());
    assert(s.subrange(q1, p2)[0] == s[q1]);
    assert(s.subrange(q2, p3)[0] == s[q2]);
    assert(s.subrange(q3, s.len() as int)[0] == s[q3]);
    assert(s[q1] == lit_to()[0]);
    assert(s[q2] == lit_amount()[0]);
    assert(s[q3] == lit_close()[0]);
    assert(quote_free(digits)) by {
        assert forall|i: int| 0 <= i < digits.len() implies digits[i] != '"' by {
            assert(is_digit(digits[i]) || digits[i] == '-');
        }
    }
    lemma_scan_field(s, p1, from_account_id);
    lemma_scan_field(s, p2, to_account_id);
    lemma_scan_field(s, p3, digits);
    assert(has_prefix_at(s, 0, lit_transfer()));
    assert(has_prefix_at(s, q1, lit_to()));
    assert(has_prefix_at(s, q2, lit_amount()));
    assert(has_prefix_at(s, q3, lit_close()));
    if has_prefix_at(s, 0, lit_create()) {
        assert(s.subrange(0, lit_create().len() as int)[2] == s[2]);
        assert(false);
    }
    if has_prefix_at(s, 0, lit_deposit()) {
        assert(s.subrange(0, lit_deposit().len() as int)[2] == s[2]);
        assert(false);
    }
    if has_prefix_at(s, 0, lit_withdrawal()) {
        assert(s.subrange(0, lit_withdrawal().len() as int)[2] == s[2]);
        assert(false);
    }
    assert(spec_parse_transfer(s) == Ok::<_, BankError>(
        BankCommandV::Transfer { from_account_id, to_account_id, amount },
    ));
    lemma_plain_no_newline(from_account_id);
    lemma_plain_no_newline(to_account_id);
    lemma_digits_no_newline(amount);
    lemma_no_newline_concat(lit_transfer(), from_account_id);
    lemma_no_newline_concat(lit_transfer() + from_account_id, lit_to());
    lemma_no_newline_concat(lit_transfer() + from_account_id + lit_to(), to_account_id);
    lemma_no_newline_concat(
        lit_transfer() + from_account_id + lit_to() + to_account_id,
        lit_amount(),
    );
    lemma_no_newline_concat(
        lit_transfer() + from_account_id + lit_to() + to_account_id + lit_amount(),
        digits,
    );
    lemma_no_newline_concat(
        lit_transfer() + from_account_id + lit_to() + to_account_id + lit_amount() + digits,
        lit_close(),
    );
}


/// Every character of `s` can stand in a string field.
fn is_plain(s: &str) -> (r: bool)
    ensures
        r == plain(s@),
{
    let n = s.unicode_len();
    let mut i: usize = 0;
    while i < n
        invariant
            0 <= i <= n,
            n == s@.len(),
            forall|j: int| 0 <= j < i ==> plain_char(#[trigger] s@[j]),
        decreases n - i,
    {
        let c = s.get_char(i);
        if c == '"' || c == '\\' || (c as u32) < 32 {
            assert(!plain_char(s@[i as int]));
            return false;
        }
        i = i + 1;
    }
    true
}

fn digit_str(d: u64) -> (r: &'static str)
    requires
        d < 10,
    ensures
        r@ == seq![digit_char(d as int)],
{
    proof {
        reveal_strlit("0");
        reveal_strlit("1");
        reveal_strlit("2");
        reveal_strlit("3");
        reveal_strlit("4");
        reveal_strlit("5");
        reveal_strlit("6");
        reveal_strlit("7");
        reveal_strlit("8");
        reveal_strlit("9");
    }
    match d {
        0 => "0",
        1 => "1",
        2 => "2",
        3 => "3",
        4 => "4",
        5 => "5",
        6 => "6",
        7 => "7",
        8 => "8",
        _ => "9",
    }
}

fn fmt_digits(k: u64) -> (r: String)
    ensures
        r@ == spec_digits(k as int),
    decreases k,
{
    if k < 10 {
        String::from_str(digit_str(k))
    } else {
        let mut s = fmt_digits(k / 10);
        s.append(digit_str(k % 10));
        proof {
            assert(s@ =~= spec_digits(k as int));
        }
        s
    }
}

/// The canonical decimal text of `n`.
fn fmt_amount(n: i64) -> (r: String)
    ensures
        r@ == amount_chars(n as int),
{
    if n >= 0 {
        fmt_digits(n as u64)
    } else {
        let mag: u64 = if n == i64::MIN {
            9223372036854775808u64
        } else {
            (-n) as u64
        };
        let mut s = String::from_str("-");
        let digits = fmt_digits(mag);
        s.append(digits.as_str());
        proof {
            reveal_strlit("-");
            assert(s@ =~= amount_chars(n as int));
        }
        s
    }
}

/// `lit` stands in `s` at `pos`.
fn match_lit(s: &str, pos: usize, lit: &str) -> (r: bool)
    requires
        pos <= s@.len(),
    ensures
        r == has_prefix_at(s@, pos as int, lit@),
{
    let n = lit.unicode_len();
    let sn = s.unicode_len();
    if sn - pos < n {
        return false;
    }
    let mut i: usize = 0;
    while i < n
        invariant
            0 <= i <= n,
            n == lit@.len(),
            sn == s@.len(),
            pos + n <= sn,
            forall|j: int| 0 <= j < i ==> s@[pos + j] == lit@[j],
        decreases n - i,
    {
        if s.get_char(pos + i) != lit.get_char(i) {
            proof {
                if has_prefix_at(s@, pos as int, lit@) {
                    assert(s@.subrange(pos as int, pos + lit@.len())[i as int] == lit@[i as int]);
                    assert(false);
                }
            }
            return false;
        }
        i = i + 1;
    }
    proof {
        assert(s@.subrange(pos as int, pos + lit@.len()) =~= lit@);
    }
    true
}

/// The position of the first quote at or past `pos`.
fn find_quote(s: &str, pos: usize) -> (r: Option<usize>)
    requires
        pos <= s@.len(),
    ensures
        match r {
            Some(q) => pos <= q < s@.len() && find_quote_from(s@, pos as int) == Some(q as int),
            None => find_quote_from(s@, pos as int) is None,
        },
{
    let n = s.unicode_len();
    let mut i: usize = pos;
    while i < n
        invariant
            pos <= i <= n,
            n == s@.len(),
            find_quote_from(s@, pos as int) == find_quote_from(s@, i as int),
        decreases n - i,
    {
        if s.get_char(i) == '"' {
            return Some(i);
        }
        i = i + 1;
    }
    None
}

/// The text of `s` between `from` and `to`, as an owned string.
fn substring(s: &str, from: usize, to: usize) -> (r: String)
    requires
        from <= to <= s@.len(),
    ensures
        r@ == s@.subrange(from as int, to as int),
{
    String::from_str(s.substring_char(from, to))
}

/// The nonnegative value of `t` so far.
proof fn lemma_digits_val_nonneg(t: Seq<char>)
    requires
        forall|i: int| 0 <= i < t.len() ==> is_digit(#[trigger] t[i]),
    ensures
        digits_val(t) >= 0,
    decreases t.len(),
{
    if t.len() > 0 {
        assert(forall|i: int|
            0 <= i < t.drop_last().len() ==> is_digit(#[trigger] t.drop_last()[i]));
        lemma_digits_val_nonneg(t.drop_last());
        assert(digit_val(t.last()) >= 0);
    }
}

/// A digit text is worth at least any of its prefixes.
proof fn lemma_digits_val_mono(t: Seq<char>, k: int)
    requires
        0 <= k <= t.len(),
        forall|i: int| 0 <= i < t.len() ==> is_digit(#[trigger] t[i]),
    ensures
        digits_val(t) >= digits_val(t.take(k)),
    decreases t.len() - k,
{
    if k < t.len() {
        assert(t.take(k + 1).drop_last() =~= t.take(k));
        assert(t.take(k + 1).last() == t[k]);
        assert(forall|i: int| 0 <= i < t.take(k).len() ==> is_digit(#[trigger] t.take(k)[i]));
        lemma_digits_val_nonneg(t.take(k));
        assert(digits_val(t.take(k + 1)) == digits_val(t.take(k)) * 10 + digit_val(t[k]));
        lemma_digits_val_mono(t, k + 1);
    } else {
        assert(t.take(k) =~= t);
    }
}

/// The number in the amount field `[from, to)` of `s`, if canonical.
#[verifier::loop_isolation(false)]
fn parse_amount(s: &str, from: usize, to: usize) -> (r: Option<i64>)
    requires
        from <= to <= s@.len(),
    ensures
        ({
            let t = s@.subrange(from as int, to as int);
            match r {
                Some(n) => spec_amount_of(t) == Some(n as int),
                None => spec_amount_of(t) is None,
            }
        }),
{
    let ghost t = s@.subrange(from as int, to as int);
    if to == from {
        return None;
    }
    let first = s.get_char(from);
    assert(t[0] == first);
    let neg = first == '-';
    let start = if neg {
        from + 1
    } else {
        from
    };
    let ghost d = if neg {
        t.skip(1)
    } else {
        t
    };
    proof {
        if neg {
            assert(d =~= s@.subrange(start as int, to as int));
        } else {
            assert(t.skip(0) =~= t);
        }
        assert(d =~= s@.subrange(start as int, to as int));
    }
    if start == to {
        assert(d.len() == 0);
        return None;
    }
    let c0 = s.get_char(start);
    assert(d[0] == c0);
    if (c0 as u32) < 48 || (c0 as u32) > 57 {
        assert(!is_digit(d[0]));
        return None;
    }
    if c0 == '0' && to - start > 1 {
        assert(d[0] == '0' && d.len() > 1);
        return None;
    }
    let mut acc: u64 = 0;
    let mut i: usize = start;
    while i < to
        invariant
            start <= i <= to,
            to <= s@.len(),
            start < to,
            d == s@.subrange(start as int, to as int),
            forall|j: int| 0 <= j < i - start ==> is_digit(#[trigger] d[j]),
            acc == digits_val(d.take(i - start)),
        decreases to - i,
    {
        let c = s.get_char(i);
        assert(d[i - start] == c);
        if (c as u32) < 48 || (c as u32) > 57 {
            assert(!is_digit(d[i - start]));
            return None;
        }
        let dv: u64 = ((c as u32) - 48) as u64;
        assert(dv == digit_val(c));
        proof {
            assert(d.take(i - start + 1).drop_last() =~= d.take(i - start));
            assert(d.take(i - start + 1).last() == d[i - start]);
        }
        let next = match acc.checked_mul(10) {
            Some(x) => x.checked_add(dv),
            None => None,
        };
        match next {
            Some(x) => {
                acc = x;
            },
            None => {
                // The value so far already exceeds any amount that fits.
                proof {
                    let pre = i - start + 1;
                    assert(digits_val(d.take(pre)) > u64::MAX);
                    if digits_ok(d) {
                        lemma_digits_val_mono(d, pre);
                    }
                }
                return None;
            },
        }
        i = i + 1;
    }
    proof {
        assert(d.take(to - start) =~= d);
    }
    if neg {
        if acc == 0 {
            return None;
        }
        if acc > 9223372036854775808u64 {
            return None;
        }
        if acc == 9223372036854775808u64 {
            Some(i64::MIN)
        } else {
            Some(-(acc as i64))
        }
    } else {
        if acc > 9223372036854775807u64 {
            return None;
        }
        Some(acc as i64)
    }
}


fn parse_create(text: &str) -> (r: Result<BankCommand, BankError>)
    requires
        has_prefix_at(text@, 0, lit_create()),
    ensures
        r is Ok <==> spec_parse_create(text@) is Ok,
        r is Ok ==> r->Ok_0.deep_view() == spec_parse_create(text@)->Ok_0,
        r is Err ==> r->Err_0 == spec_parse_create(text@)->Err_0,
{
    proof {
        lemma_lits();
    }
    let n = text.unicode_len();
    let p1 = "{\"CreateAccount\":{\"id\":\"".unicode_len();
    let q1 = match find_quote(text, p1) {
        Some(q) => q,
        None => {
            return Err(BankError::MalformedEntry);
        },
    };
    let id = substring(text, p1, q1);
    if !match_lit(text, q1, "\",\"name\":\"") {
        return Err(BankError::MalformedEntry);
    }
    let m = "\",\"name\":\"".unicode_len();
    assert(q1 + m <= n);
    let p2 = q1 + m;
    let q2 = match find_quote(text, p2) {
        Some(q) => q,
        None => {
            return Err(BankError::MalformedEntry);
        },
    };
    let name = substring(text, p2, q2);
    if match_lit(text, q2, "\"}}") && n - q2 == 3 {
        Ok(BankCommand::CreateAccount { id, name })
    } else {
        Err(BankError::MalformedEntry)
    }
}

fn parse_one_amount(text: &str, pos: usize, deposit: bool) -> (r: Result<BankCommand, BankError>)
    requires
        pos <= text@.len(),
    ensures
        r is Ok <==> spec_parse_one_amount(text@, pos as int, deposit) is Ok,
        r is Ok ==> r->Ok_0.deep_view() == spec_parse_one_amount(text@, pos as int, deposit)->Ok_0,
        r is Err ==> r->Err_0 == spec_parse_one_amount(text@, pos as int, deposit)->Err_0,
{
    proof {
        lemma_lits();
    }
    let n = text.unicode_len();
    let q1 = match find_quote(text, pos) {
        Some(q) => q,
        None => {
            return Err(BankError::MalformedEntry);
        },
    };
    let account_id = substring(text, pos, q1);
    if !match_lit(text, q1, "\",\"amount\":\"") {
        return Err(BankError::MalformedEntry);
    }
    let m = "\",\"amount\":\"".unicode_len();
    assert(q1 + m <= n);
    let p2 = q1 + m;
    let q2 = match find_quote(text, p2) {
        Some(q) => q,
        None => {
            return Err(BankError::MalformedEntry);
        },
    };
    if !(match_lit(text, q2, "\"}}") && n - q2 == 3) {
        return Err(BankError::MalformedEntry);
    }
    let units = match parse_amount(text, p2, q2) {
        Some(v) => v,
        None => {
            return Err(BankError::MalformedEntry);
        },
    };
    let amount = Amount::new(units);
    if deposit {
        Ok(BankCommand::Deposit { account_id, amount })
    } else {
        Ok(BankCommand::Withdrawal { account_id, amount })
    }
}

fn parse_transfer(text: &str) -> (r: Result<BankCommand, BankError>)
    requires
        has_prefix_at(text@, 0, lit_transfer()),
    ensures
        r is Ok <==> spec_parse_transfer(text@) is Ok,
        r is Ok ==> r->Ok_0.deep_view() == spec_parse_transfer(text@)->Ok_0,
        r is Err ==> r->Err_0 == spec_parse_transfer(text@)->Err_0,
{
    proof {
        lemma_lits();
    }
    let n = text.unicode_len();
    let p1 = "{\"Transfer\":{\"from_account_id\":\"".unicode_len();
    let q1 = match find_quote(text, p1) {
        Some(q) => q,
        None => {
            return Err(BankError::MalformedEntry);
        },
    };
    let from_account_id = substring(text, p1, q1);
    if !match_lit(text, q1, "\",\"to_account_id\":\"") {
        return Err(BankError::MalformedEntry);
    }
    let m1 = "\",\"to_account_id\":\"".unicode_len();
    assert(q1 + m1 <= n);
    let p2 = q1 + m1;
    let q2 = match find_quote(text, p2) {
        Some(q) => q,
        None => {
            return Err(BankError::MalformedEntry);
        },
    };
    let to_account_id = substring(text, p2, q2);
    if !match_lit(text, q2, "\",\"amount\":\"") {
        return Err(BankError::MalformedEntry);
    }
    let m2 = "\",\"amount\":\"".unicode_len();
    assert(q2 + m2 <= n);
    let p3 = q2 + m2;
    let q3 = match find_quote(text, p3) {
        Some(q) => q,
        None => {
            return Err(BankError::MalformedEntry);
        },
    };
    if !(match_lit(text, q3, "\"}}") && n - q3 == 3) {
        return Err(BankError::MalformedEntry);
    }
    let units = match parse_amount(text, p3, q3) {
        Some(v) => v,
        None => {
            return Err(BankError::MalformedEntry);
        },
    };
    Ok(
        BankCommand::Transfer {
            from_account_id,
            to_account_id,
            amount: Amount::new(units),
        },
    )
}

/// Decode one line into the command it holds.
fn parse_line(text: &str) -> (r: Result<BankCommand, BankError>)
    ensures
        r is Ok <==> spec_parse(text@) is Ok,
        r is Ok ==> r->Ok_0.deep_view() == spec_parse(text@)->Ok_0,
        r is Err ==> r->Err_0 == spec_parse(text@)->Err_0,
{
    if match_lit(text, 0, "{\"CreateAccount\":{\"id\":\"") {
        parse_create(text)
    } else if match_lit(text, 0, "{\"Deposit\":{\"account_id\":\"") {
        parse_one_amount(text, "{\"Deposit\":{\"account_id\":\"".unicode_len(), true)
    } else if match_lit(text, 0, "{\"Withdrawal\":{\"account_id\":\"") {
        parse_one_amount(text, "{\"Withdrawal\":{\"account_id\":\"".unicode_len(), false)
    } else if match_lit(text, 0, "{\"Transfer\":{\"from_account_id\":\"") {
        parse_transfer(text)
    } else {
        Err(BankError::MalformedEntry)
    }
}


/// An encoded line is never blank, so the blank-line tolerance of replay
/// never drops a command: a log of K commands holds K non-blank lines.
pub proof fn lemma_encoded_line_not_blank(v: BankCommandV)
    requires
        spec_format(v) is Ok,
    ensures
        !crate::storage::blank_line(spec_format(v)->Ok_0),
{
    lemma_lits();
    let s = spec_format(v)->Ok_0;
    match v {
        BankCommandV::CreateAccount { id, name } => {
            assert(s[0] == lit_create()[0]);
        },
        BankCommandV::Deposit { account_id, amount } => {
            assert(s[0] == lit_deposit()[0]);
        },
        BankCommandV::Withdrawal { account_id, amount } => {
            assert(s[0] == lit_withdrawal()[0]);
        },
        BankCommandV::Transfer { from_account_id, to_account_id, amount } => {
            assert(s[0] == lit_transfer()[0]);
        },
    }
}

} // verus!

