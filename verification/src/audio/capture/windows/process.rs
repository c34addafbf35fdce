//! Capturing one program on Windows: how the activation of its audio ends.

use crate::audio::capture::windows::device::{MixFormat, WAVE_FORMAT_IEEE_FLOAT};
use crate::error::Error;
use crate::text::{cat, cat3, cat5, decimal, digit_char, u64_to_decimal, write_digit};
use vstd::prelude::*;
use vstd::string::*;

verus! {

/// The tag of the capture of a program.
pub fn process_tag(pid: u32) -> (r: String)
    ensures
        r@ == "进程 "@ + decimal(pid as int) + " loopback"@,
{
    let number = u64_to_decimal(pid as u64);
    cat3("进程 ", number.as_str(), " loopback")
}

/// The last `count` hexadecimal digits of a number.
pub open spec fn hex_digits(n: nat, count: nat) -> Seq<char>
    decreases count,
{
    if count == 0 {
        Seq::empty()
    } else {
        hex_digits(n / 16, (count - 1) as nat).push(digit_char(n % 16))
    }
}

/// The unsigned number with the bits of a result code.
pub open spec fn code_bits(hr: i32) -> nat {
    (if hr < 0 {
        hr + 0x1_0000_0000
    } else {
        hr as int
    }) as nat
}

/// A result code as eight hexadecimal digits.
pub open spec fn hresult_text(hr: i32) -> Seq<char> {
    "0x"@ + hex_digits(code_bits(hr), 8)
}

fn write_hex(n: u64, count: usize) -> (r: String)
    ensures
        r@ == hex_digits(n as nat, count as nat),
    decreases count,
{
    if count == 0 {
        let r = String::new();
        proof {
            assert(r@ =~= Seq::empty());
        }
        r
    } else {
        let mut r = write_hex(n / 16, count - 1);
        r.push(write_digit(n % 16));
        r
    }
}

/// A result code as text.
pub fn write_hresult(hr: i32) -> (r: String)
    ensures
        r@ == hresult_text(hr),
{
    let wide: i64 = hr as i64;
    let bits: u64 = if wide < 0 {
        (wide + 0x1_0000_0000) as u64
    } else {
        wide as u64
    };
    let digits = write_hex(bits, 8);
    cat("0x", digits.as_str())
}

/// How an activation ended, as far as the system said.
#[derive(Debug)]
pub enum Activation {
    /// The system did not say which activation had ended.
    NoOperation(String),
    /// The outcome could not be asked for.
    NoResult(String),
    /// The activation came to this code, and there is an audio client or not.
    Result { code: i32, client: bool },
}

/// What is wrong with an activation.
pub open spec fn activation_error(a: Activation) -> Option<Seq<char>> {
    match a {
        Activation::NoOperation(e) => Some("ActivateCompleted 收到空 operation: "@ + e@),
        Activation::NoResult(e) => Some("GetActivateResult 失败: "@ + e@),
        Activation::Result { code, client } => if code < 0 {
            Some("进程 loopback 激活失败: hr="@ + hresult_text(code))
        } else if !client {
            Some("激活成功（hr="@ + hresult_text(code) + "）但未取得 IAudioClient"@)
        } else {
            None
        },
    }
}

/// How an activation ended. A code that is negative stands for a failure.
pub fn activation_outcome(a: &Activation) -> (r: Result<(), Error>)
    ensures
        match activation_error(*a) {
            Some(text) => r is Err && r->Err_0 is AudioSource && r->Err_0->AudioSource_0@ == text,
            None => r is Ok,
        },
{
    match a {
        Activation::NoOperation(e) => Err(
            Error::AudioSource(cat("ActivateCompleted 收到空 operation: ", e.as_str())),
        ),
        Activation::NoResult(e) => Err(
            Error::AudioSource(cat("GetActivateResult 失败: ", e.as_str())),
        ),
        Activation::Result { code, client } => {
            let text = write_hresult(*code);
            if *code < 0 {
                Err(Error::AudioSource(cat("进程 loopback 激活失败: hr=", text.as_str())))
            } else if !*client {
                Err(
                    Error::AudioSource(
                        cat3("激活成功（hr=", text.as_str(), "）但未取得 IAudioClient"),
                    ),
                )
            } else {
                Ok(())
            }
        },
    }
}

/// What is said where an activation did not end in time.
pub fn activation_timeout(tag: &str, timed_out: bool) -> (r: Error)
    ensures
        r is AudioSource,
        r->AudioSource_0@ == "["@ + tag@ + "] 激活超时（5s, timed_out="@ + (if timed_out {
            "true"@
        } else {
            "false"@
        }) + "）"@,
{
    let flag: &str = if timed_out {
        "true"
    } else {
        "false"
    };
    Error::AudioSource(cat5("[", tag, "] 激活超时（5s, timed_out=", flag, "）"))
}

/// The format in which a program is captured: floating-point numbers, two
/// channels, forty-eight kilohertz. The system offers none of its own.
pub fn process_mix_format() -> (r: MixFormat)
    ensures
        r == (MixFormat { tag: WAVE_FORMAT_IEEE_FLOAT, channels: 2, rate: 48000, sub_format: 0 }),
        r.tag == 3 && r.channels == 2 && r.rate == 48000 && r.sub_format == 0,
{
    MixFormat { tag: WAVE_FORMAT_IEEE_FLOAT, channels: 2, rate: 48000, sub_format: 0 }
}

/// The number that hexadecimal digits make, for figures and small letters.
pub open spec fn hex_value(s: Seq<char>) -> int
    decreases s.len(),
{
    if s.len() == 0 {
        0
    } else {
        let c = s.last();
        16 * hex_value(s.drop_last()) + (if '0' <= c <= '9' {
            c as int - '0' as int
        } else {
            c as int - 'a' as int + 10
        })
    }
}

/// How many numbers that many hexadecimal digits can tell apart.
pub open spec fn hex_range(count: nat) -> nat
    decreases count,
{
    if count == 0 {
        1
    } else {
        16 * hex_range((count - 1) as nat)
    }
}

proof fn lemma_hex_reads_back(n: nat, count: nat)
    requires
        n < hex_range(count),
    ensures
        hex_digits(n, count).len() == count,
        hex_value(hex_digits(n, count)) == n,
    decreases count,
{
    if count > 0 {
        lemma_hex_reads_back(n / 16, (count - 1) as nat);
        let before = hex_digits(n / 16, (count - 1) as nat);
        assert(hex_digits(n, count).drop_last() =~= before);
    }
}

/// A result code is written so that it can be read: eight hexadecimal digits
/// that make the number with the bits of the code.
pub proof fn result_code_reads_back(hr: i32)
    ensures
        hresult_text(hr).len() == 10,
        hresult_text(hr).take(2) == "0x"@,
        hr >= 0 ==> hex_value(hresult_text(hr).skip(2)) == hr,
        hr < 0 ==> hex_value(hresult_text(hr).skip(2)) == hr + 0x1_0000_0000,
{
    reveal_strlit("0x");
    reveal_with_fuel(hex_range, 9);
    assert(hex_range(8) == 0x1_0000_0000);
    lemma_hex_reads_back(code_bits(hr), 8);
    assert(hresult_text(hr).take(2) =~= "0x"@);
    assert(hresult_text(hr).skip(2) =~= hex_digits(code_bits(hr), 8));
}

/// An activation is good exactly where its code is not negative and there is a
/// client; otherwise what is said tells the cause or the code.
pub proof fn activations_fail_for_a_reason(cause: String, code: i32, client: bool)
    ensures
        activation_error(Activation::NoOperation(cause)) == Some(
            "ActivateCompleted 收到空 operation: "@ + cause@,
        ),
        activation_error(Activation::NoResult(cause)) == Some("GetActivateResult 失败: "@ + cause@),
        activation_error(Activation::Result { code, client }) is None <==> code >= 0 && client,
        code < 0 ==> activation_error(Activation::Result { code, client }) == Some(
            "进程 loopback 激活失败: hr="@ + hresult_text(code),
        ),
        code >= 0 ==> activation_error(Activation::Result { code, client: false }) == Some(
            "激活成功（hr="@ + hresult_text(code) + "）但未取得 IAudioClient"@,
        ),
{
}

} // verus!
