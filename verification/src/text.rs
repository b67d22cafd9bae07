use vstd::prelude::*;
use vstd::string::StringExecFns;

verus! {

/// The decimal digit character for `d`.
pub open spec fn spec_digit(d: int) -> char {
    if d == 0 {
        '0'
    } else if d == 1 {
        '1'
    } else if d == 2 {
        '2'
    } else if d == 3 {
        '3'
    } else if d == 4 {
        '4'
    } else if d == 5 {
        '5'
    } else if d == 6 {
        '6'
    } else if d == 7 {
        '7'
    } else if d == 8 {
        '8'
    } else {
        '9'
    }
}

/// The decimal numeral for `n`, most significant digit first, no leading
/// zeros (except for `n == 0` itself).
pub open spec fn spec_dec(n: nat) -> Seq<char>
    decreases n,
{
    if n < 10 {
        seq![spec_digit(n as int)]
    } else {
        spec_dec(n / 10).push(spec_digit((n % 10) as int))
    }
}

/// The one-character string for a single decimal digit.
fn digit_str(d: u128) -> (r: &'static str)
    requires
        d < 10,
    ensures
        r@ == seq![spec_digit(d as int)],
{
    proof {
        reveal_strlit("0");
        reveal_strlit("1");
        reveal_strlit("2");
        reveal_strlit("3");
        reveal_strlit("4");
        reveal_strlit("5");
        reveal_strlit("6");
        reveal_strlit("7");
        reveal_strlit("8");
        reveal_strlit("9");
    }
    let r = if d == 0 {
        "0"
    } else if d == 1 {
        "1"
    } else if d == 2 {
        "2"
    } else if d == 3 {
        "3"
    } else if d == 4 {
        "4"
    } else if d == 5 {
        "5"
    } else if d == 6 {
        "6"
    } else if d == 7 {
        "7"
    } else if d == 8 {
        "8"
    } else {
        "9"
    };
    proof {
        assert(r@ =~= seq![spec_digit(d as int)]);
    }
    r
}

/// Renders `n` in decimal.
pub fn u128_to_dec(n: u128) -> (s: String)
    ensures
        s@ == spec_dec(n as nat),
    decreases n,
{
    if n < 10 {
        digit_str(n).to_owned()
    } else {
        proof {
            assert(n / 10 < n && n % 10 < 10) by (nonlinear_arith)
                requires
                    n >= 10;
        }
        let mut s = u128_to_dec(n / 10);
        s.append(digit_str(n % 10));
        s
    }
}

/// The memo attached to the reward transfer for a credited deed.
pub open spec fn spec_credit_memo(author: Seq<char>, endorser: Seq<char>) -> Seq<char> {
    "Social deed of "@ + author + " credited by "@ + endorser
}

/// Builds the reward-transfer memo naming the author and the endorser.
pub fn credit_memo(author: &String, endorser: &String) -> (r: String)
    ensures
        r@ == spec_credit_memo(author@, endorser@),
{
    let mut s = "Social deed of ".to_owned();
    s.append(author.as_str());
    s.append(" credited by ");
    s.append(endorser.as_str());
    proof {
        assert(s@ =~= spec_credit_memo(author@, endorser@));
    }
    s
}

/// The synthesized description of a donation deed.
pub open spec fn spec_donation_description(donor: Seq<char>, amount: u128) -> Seq<char> {
    donor + " donated "@ + spec_dec(amount as nat) + " to all users. Thank you very much!"@
}

/// Builds the description of the deed that a donation appends: the donor and
/// the donated amount in smallest units.
pub fn donation_description(donor: &String, amount: u128) -> (r: String)
    ensures
        r@ == spec_donation_description(donor@, amount),
{
    let mut s = donor.clone();
    s.append(" donated ");
    let dec = u128_to_dec(amount);
    s.append(dec.as_str());
    s.append(" to all users. Thank you very much!");
    proof {
        assert(s@ =~= spec_donation_description(donor@, amount));
    }
    s
}

/// One observable log entry of the donation distributor.
pub open spec fn spec_donation_log(amount: u128, recipient: Seq<char>) -> Seq<char> {
    "Donated "@ + spec_dec(amount as nat) + " to "@ + recipient + "."@
}

/// Builds the log line recording that `amount` was donated to `recipient`.
pub fn donation_log(amount: u128, recipient: &String) -> (r: String)
    ensures
        r@ == spec_donation_log(amount, recipient@),
{
    let mut s = "Donated ".to_owned();
    let dec = u128_to_dec(amount);
    s.append(dec.as_str());
    s.append(" to ");
    s.append(recipient.as_str());
    s.append(".");
    proof {
        assert(s@ =~= spec_donation_log(amount, recipient@));
    }
    s
}

} // verus!
