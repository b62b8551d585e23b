use light_client::io::{self, IoError, IoInput, IoOutput};
use light_client::types::LightBlock;
use light_client::verification::{self, VerifierError, VerifierInput, VerifierOutput};

#[test]
fn stand_in_verifier_accepts_when_the_coin_allows() {
    let lb = LightBlock::new(7, 3);
    let input = VerifierInput::VerifyLightBlock(lb);
    assert_eq!(
        verification::outcome(input, false),
        Ok(VerifierOutput::VerifiedLightBlock(lb))
    );
    assert_eq!(verification::outcome(input, true), Err(VerifierError::NotEnoughTrust));
}

#[test]
fn stand_in_verifier_never_answers_invalid() {
    let lb = LightBlock::new(7, 3);
    let mut accepted = 0;
    let mut refused = 0;
    for _ in 0..200 {
        match verification::process(VerifierInput::VerifyLightBlock(lb)) {
            Ok(VerifierOutput::VerifiedLightBlock(out)) => {
                assert_eq!(out, lb);
                accepted += 1;
            }
            Err(e) => {
                assert_eq!(e, VerifierError::NotEnoughTrust);
                refused += 1;
            }
        }
    }
    assert_eq!(accepted + refused, 200);
}

#[test]
fn stand_in_fetcher_finds_a_block_at_the_height_asked_for() {
    assert_eq!(
        io::process(IoInput::FetchLightBlock(42)),
        Ok(IoOutput::FetchedLightBlock(LightBlock::new(42, 0)))
    );
    assert_eq!(
        io::process(IoInput::FetchLightBlock(0)),
        Ok(IoOutput::FetchedLightBlock(LightBlock::new(0, 0)))
    );
}

#[test]
fn verifier_capability_calls_the_function_it_holds() {
    let verifier = verification::handler(|input| match input {
        VerifierInput::VerifyLightBlock(lb) => {
            if lb.height % 2 == 0 {
                Ok(VerifierOutput::VerifiedLightBlock(lb))
            } else {
                Err(VerifierError::Invalid)
            }
        }
    });
    let even = LightBlock::new(4, 1);
    let odd = LightBlock::new(5, 1);
    assert_eq!(
        verifier.call(VerifierInput::VerifyLightBlock(even)),
        Ok(VerifierOutput::VerifiedLightBlock(even))
    );
    assert_eq!(
        verifier.call(VerifierInput::VerifyLightBlock(odd)),
        Err(VerifierError::Invalid)
    );
}

#[test]
fn fetch_capability_calls_the_function_it_holds() {
    let fetcher = io::handler(|input| match input {
        IoInput::FetchLightBlock(h) => {
            if h < 10 {
                Ok(IoOutput::FetchedLightBlock(LightBlock::new(h, h + 1)))
            } else if h < 20 {
                Err(IoError::NotFound)
            } else {
                Err(IoError::Timeout)
            }
        }
    });
    assert_eq!(
        fetcher.call(IoInput::FetchLightBlock(3)),
        Ok(IoOutput::FetchedLightBlock(LightBlock::new(3, 4)))
    );
    assert_eq!(fetcher.call(IoInput::FetchLightBlock(12)), Err(IoError::NotFound));
    assert_eq!(fetcher.call(IoInput::FetchLightBlock(30)), Err(IoError::Timeout));
}
