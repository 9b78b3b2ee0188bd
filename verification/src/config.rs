//! The configuration values the two processes need: where the relay
//! listens, and where a client connects. Loading them from a file or
//! the environment is the I/O layer's job; the address formatting is
//! verified here.

use vstd::prelude::*;
use vstd::utf8::encode_utf8;
use vstd::utf8::valid_utf8;
use vstd::utf8::valid_utf8_concat;
use crate::strbytes::all_ascii_bytes;
use crate::strbytes::lemma_ascii_bytes_valid_utf8;
use crate::strbytes::string_from_utf8;

verus! {

/// The ASCII digit bytes of a nonnegative number, most significant
/// first, without leading zeros.
pub open spec fn dec_bytes(n: int) -> Seq<u8>
    decreases n,
{
    if n < 10 {
        seq![(48 + (if n < 0 {
            0
        } else {
            n
        })) as u8]
    } else {
        dec_bytes(n / 10) + seq![(48 + n % 10) as u8]
    }
}

proof fn lemma_dec_bytes_ascii(n: int)
    ensures
        all_ascii_bytes(dec_bytes(n)),
    decreases n,
{
    if n >= 10 {
        lemma_dec_bytes_ascii(n / 10);
        let t = dec_bytes(n);
        assert(t == dec_bytes(n / 10) + seq![(48 + n % 10) as u8]);
        assert forall|i: int| 0 <= i < t.len() implies #[trigger] t[i] < 128 by {
            if i < dec_bytes(n / 10).len() {
                assert(t[i] == dec_bytes(n / 10)[i]);
            }
        }
    }
}

/// The decimal digit bytes of a port number.
fn dec_vec(n: u16) -> (r: Vec<u8>)
    ensures
        r@ == dec_bytes(n as int),
    decreases n,
{
    if n < 10 {
        let mut out: Vec<u8> = Vec::new();
        out.push(48 + (n as u8));
        proof {
            assert(out@ =~= dec_bytes(n as int));
        }
        out
    } else {
        let mut out = dec_vec(n / 10);
        out.push(48 + ((n % 10) as u8));
        proof {
            assert(out@ =~= dec_bytes(n as int));
        }
        out
    }
}

/// The `host:port` form of an address, with the port in decimal.
pub fn socket_addr_string(host: &str, port: u16) -> (r: String)
    ensures
        encode_utf8(r@) == encode_utf8(host@) + seq![58u8] + dec_bytes(port as int),
{
    let mut out: Vec<u8> = vstd::slice::slice_to_vec(host.as_bytes());
    let ghost host_bytes = out@;
    out.push(58);
    let mut digits = dec_vec(port);
    let ghost digit_bytes = digits@;
    out.append(&mut digits);
    proof {
        assert(out@ =~= encode_utf8(host@) + seq![58u8] + dec_bytes(port as int));
        vstd::utf8::encode_utf8_valid_utf8(host@);
        lemma_dec_bytes_ascii(port as int);
        let colon_digits = seq![58u8] + digit_bytes;
        assert(all_ascii_bytes(colon_digits)) by {
            assert forall|i: int| 0 <= i < colon_digits.len() implies #[trigger] colon_digits[i]
                < 128 by {
                if i > 0 {
                    assert(colon_digits[i] == digit_bytes[i - 1]);
                }
            }
        }
        lemma_ascii_bytes_valid_utf8(colon_digits);
        valid_utf8_concat(host_bytes, colon_digits);
        assert(host_bytes + colon_digits =~= out@);
    }
    match string_from_utf8(out) {
        Some(s) => s,
        None => {
            proof {
                assert(false);
            }
            String::new()
        },
    }
}

/// What a client needs: the relay's host and port.
pub struct ClientConfig {
    pub master_addr: String,
    pub master_port: u16,
}

impl ClientConfig {
    /// The `host:port` address the client connects to.
    pub fn master_addr(&self) -> (r: String)
        ensures
            encode_utf8(r@) == encode_utf8(self.master_addr@) + seq![58u8] + dec_bytes(
                self.master_port as int,
            ),
    {
        socket_addr_string(self.master_addr.as_str(), self.master_port)
    }
}

/// What the relay needs: the host and port it binds.
pub struct MasterConfig {
    pub host_ip: String,
    pub host_port: u16,
}

impl MasterConfig {
    /// The `host:port` address the relay listens on.
    pub fn master_addr(&self) -> (r: String)
        ensures
            encode_utf8(r@) == encode_utf8(self.host_ip@) + seq![58u8] + dec_bytes(
                self.host_port as int,
            ),
    {
        socket_addr_string(self.host_ip.as_str(), self.host_port)
    }
}

} // verus!
