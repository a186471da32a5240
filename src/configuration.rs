use vstd::prelude::*;

verus! {

/// Where the server listens, whether it reports on stderr, and whether
/// `SET` refuses keys that the container's template does not declare.
#[derive(Debug, Clone, PartialEq)]
pub struct Config {
    pub ip: String,
    pub port: u16,
    pub silent: bool,
    pub enforce_declared_keys: bool,
}

/// The address listened on when none is configured.
pub open spec fn default_ip() -> Seq<char> {
    "0.0.0.0"@
}

/// The port listened on when none is configured.
pub const DEFAULT_PORT: u16 = 8080;

/// The decimal digits of `n`, most significant first, without leading zeros.
pub open spec fn decimal(n: nat) -> Seq<char>
    decreases n,
{
    if n < 10 {
        seq![digit_char(n)]
    } else {
        decimal(n / 10).push(digit_char(n % 10))
    }
}

/// The character of a decimal digit.
pub open spec fn digit_char(d: nat) -> char {
    if d == 0 {
        '0'
    } else if d == 1 {
        '1'
    } else if d == 2 {
        '2'
    } else if d == 3 {
        '3'
    } else if d == 4 {
        '4'
    } else if d == 5 {
        '5'
    } else if d == 6 {
        '6'
    } else if d == 7 {
        '7'
    } else if d == 8 {
        '8'
    } else {
        '9'
    }
}

fn digit_text(d: u16) -> (r: &'static str)
    requires
        d < 10,
    ensures
        r@ == seq![digit_char(d as nat)],
{
    proof {
        reveal_strlit("0");
        reveal_strlit("1");
        reveal_strlit("2");
        reveal_strlit("3");
        reveal_strlit("4");
        reveal_strlit("5");
        reveal_strlit("6");
        reveal_strlit("7");
        reveal_strlit("8");
        reveal_strlit("9");
    }
    let r = if d == 0 {
        "0"
    } else if d == 1 {
        "1"
    } else if d == 2 {
        "2"
    } else if d == 3 {
        "3"
    } else if d == 4 {
        "4"
    } else if d == 5 {
        "5"
    } else if d == 6 {
        "6"
    } else if d == 7 {
        "7"
    } else if d == 8 {
        "8"
    } else {
        "9"
    };
    assert(r@ =~= seq![digit_char(d as nat)]);
    r
}

/// Appends the decimal form of `n` to `out`.
fn push_decimal(out: &mut String, n: u16)
    ensures
        final(out)@ == old(out)@ + decimal(n as nat),
    decreases n,
{
    if n < 10 {
        out.append(digit_text(n));
    } else {
        push_decimal(out, n / 10);
        out.append(digit_text(n % 10));
        assert(final(out)@ =~= old(out)@ + decimal(n as nat));
    }
}

impl Default for Config {
    fn default() -> (r: Config)
        ensures
            r.ip@ == default_ip(),
            r.port == DEFAULT_PORT,
            !r.silent,
            !r.enforce_declared_keys,
    {
        Config {
            ip: String::from_str("0.0.0.0"),
            port: DEFAULT_PORT,
            silent: false,
            enforce_declared_keys: false,
        }
    }
}

impl Config {
    /// The socket address `ip:port`.
    pub fn address(&self) -> (r: String)
        ensures
            r@ == self.ip@ + ":"@ + decimal(self.port as nat),
    {
        let mut r = self.ip.clone();
        r.append(":");
        push_decimal(&mut r, self.port);
        r
    }

    /// This configuration with an empty address or a zero port replaced by
    /// the default.
    pub fn normalized(self) -> (r: Config)
        ensures
            r.ip@ == (if self.ip@.len() == 0 {
                default_ip()
            } else {
                self.ip@
            }),
            r.port == (if self.port == 0 {
                DEFAULT_PORT
            } else {
                self.port
            }),
            r.silent == self.silent,
            r.enforce_declared_keys == self.enforce_declared_keys,
    {
        let ip = if self.ip.as_str().is_empty() {
            String::from_str("0.0.0.0")
        } else {
            self.ip
        };
        let port = if self.port == 0 {
            DEFAULT_PORT
        } else {
            self.port
        };
        Config { ip, port, silent: self.silent, enforce_declared_keys: self.enforce_declared_keys }
    }
}

} // verus!
