use signature_benchmark::lamport_otp;
use signature_benchmark::park_otp;

#[test]
fn lamport_otp_basic() {
    let mut p = lamport_otp::Proofer::new(10);
    let mut v = lamport_otp::Verifier::new(p.n, p.pk());

    let ch = v.next_challenge();
    let pwd = p.reply(ch);
    assert_eq!(v.verify(pwd), true);
}

#[test]
fn full_chain() {
    let mut p = lamport_otp::Proofer::new(10);
    let mut v = lamport_otp::Verifier::new(p.n, p.pk());

    for _ in 0..p.n {
        let ch = v.next_challenge();
        let pwd = p.reply(ch);
        assert_eq!(v.verify(pwd), true);
    }
}

#[test]
fn lamport_wrong_otp_rejected() {
    let mut p = lamport_otp::Proofer::new(5);
    let mut v = lamport_otp::Verifier::new(p.n, p.pk());

    let ch = v.next_challenge();
    let mut pwd = p.reply(ch);
    pwd[0] ^= 1;
    assert_eq!(v.verify(pwd), false);
}

#[test]
fn park_otp_basic() {
    let mut p = park_otp::Proofer::new();
    let mut v = park_otp::Verifier::new(p.pk());

    let ch = v.next_challenge();
    let pwd = p.reply(ch);
    assert_eq!(v.verify(pwd), true);
}

#[test]
fn long_chain() {
    let mut p = park_otp::Proofer::new();
    let mut v = park_otp::Verifier::new(p.pk());

    for _ in 0..10_000 {
        let ch = v.next_challenge();
        let pwd = p.reply(ch);
        assert_eq!(v.verify(pwd), true);
    }
}

#[test]
fn park_wrong_otp_rejected() {
    let mut p = park_otp::Proofer::new();
    let mut v = park_otp::Verifier::new(p.pk());

    let ch = v.next_challenge();
    let (mut x, y, z) = p.reply(ch);
    x[0] ^= 1;
    assert_eq!(v.verify((x, y, z)), false);
}
