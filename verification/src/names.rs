//! Display names of oracles.
//!
//! Names are prefixed by the namespaces in force when the oracle is
//! declared, separated by `::`. They serve diagnostics only.

use vstd::prelude::*;

verus! {

/// The separator between the parts of a scoped name.
pub open spec fn separator() -> Seq<char> {
    seq![':', ':']
}

/// The namespaces of `path`, each followed by the separator.
pub open spec fn prefix(path: Seq<Seq<char>>) -> Seq<char>
    decreases path.len(),
{
    if path.len() == 0 {
        Seq::<char>::empty()
    } else {
        prefix(path.drop_last()) + path.last() + separator()
    }
}

/// The display name of `name` under the namespaces of `path`.
pub open spec fn scoped(path: Seq<Seq<char>>, name: Seq<char>) -> Seq<char> {
    prefix(path) + name
}

/// The character of a decimal digit.
pub open spec fn digit_char(d: nat) -> char {
    if d == 0 {
        '0'
    } else if d == 1 {
        '1'
    } else if d == 2 {
        '2'
    } else if d == 3 {
        '3'
    } else if d == 4 {
        '4'
    } else if d == 5 {
        '5'
    } else if d == 6 {
        '6'
    } else if d == 7 {
        '7'
    } else if d == 8 {
        '8'
    } else {
        '9'
    }
}

/// The decimal digits of `n`, most significant first.
pub open spec fn decimal(n: nat) -> Seq<char>
    decreases n,
{
    if n < 10 {
        seq![digit_char(n)]
    } else {
        decimal(n / 10).push(digit_char(n % 10))
    }
}

/// The views of a path of namespaces.
pub open spec fn path_view(path: Seq<String>) -> Seq<Seq<char>> {
    path.map_values(|s: String| s@)
}

fn digit_str(d: usize) -> (r: &'static str)
    requires
        d < 10,
    ensures
        r@ == seq![digit_char(d as nat)],
{
    proof {
        reveal_strlit("0");
        reveal_strlit("1");
        reveal_strlit("2");
        reveal_strlit("3");
        reveal_strlit("4");
        reveal_strlit("5");
        reveal_strlit("6");
        reveal_strlit("7");
        reveal_strlit("8");
        reveal_strlit("9");
    }
    let r = if d == 0 {
        "0"
    } else if d == 1 {
        "1"
    } else if d == 2 {
        "2"
    } else if d == 3 {
        "3"
    } else if d == 4 {
        "4"
    } else if d == 5 {
        "5"
    } else if d == 6 {
        "6"
    } else if d == 7 {
        "7"
    } else if d == 8 {
        "8"
    } else {
        "9"
    };
    assert(r@ =~= seq![digit_char(d as nat)]);
    r
}

/// The decimal form of `n`.
pub fn decimal_string(n: usize) -> (r: String)
    ensures
        r@ == decimal(n as nat),
    decreases n,
{
    if n < 10 {
        String::from_str(digit_str(n))
    } else {
        let mut s = decimal_string(n / 10);
        s.append(digit_str(n % 10));
        assert(s@ =~= decimal((n / 10) as nat).push(digit_char((n % 10) as nat)));
        s
    }
}

/// `prefix` followed by the decimal form of `n`.
pub fn numbered(prefix: &str, n: usize) -> (r: String)
    ensures
        r@ == prefix@ + decimal(n as nat),
{
    let mut s = String::from_str(prefix);
    let digits = decimal_string(n);
    s.append(digits.as_str());
    s
}

/// The display name of `name` under the namespaces of `path`.
pub fn scoped_name(path: &Vec<String>, name: &str) -> (r: String)
    ensures
        r@ == scoped(path_view(path@), name@),
{
    let mut s = String::new();
    let n: usize = path.len();
    let mut i: usize = 0;
    while i < n
        invariant
            i <= n,
            n == path@.len(),
            s@ == prefix(path_view(path@).subrange(0, i as int)),
        decreases n - i,
    {
        proof {
            reveal_strlit("::");
            let p = path_view(path@);
            assert(p.subrange(0, i + 1).drop_last() =~= p.subrange(0, i as int));
            assert("::"@ =~= separator());
        }
        s.append(path[i].as_str());
        s.append("::");
        i += 1;
    }
    proof {
        let p = path_view(path@);
        assert(p.subrange(0, n as int) =~= p);
    }
    s.append(name);
    s
}

} // verus!
