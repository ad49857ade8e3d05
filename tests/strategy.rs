use raw_processor::chain::{
    advance, plan_for, Attempt, ChainEnd, ChainRun, Converter, Position, PreviewTag, Profile,
    Transition,
};
use raw_processor::error::DecodeError;
use raw_processor::format::FormatTag;

fn run(source: &str, ok: impl Fn(Attempt) -> bool, elapsed: u64) -> (Result<Attempt, DecodeError>, Vec<Attempt>) {
    let mut chain = ChainRun::new(source);
    let mut tried = Vec::new();
    while let Some(a) = chain.current() {
        tried.push(a);
        chain.report(ok(a), elapsed);
    }
    (chain.outcome().unwrap(), tried)
}

#[test]
fn plans_per_format() {
    let raf = plan_for(FormatTag::Raf);
    assert_eq!(raf.len(), 3);
    assert_eq!(raf[0][0], Attempt::Preview(PreviewTag::PreviewImage));
    assert_eq!(raf[2].len(), 3);
    assert!(!raf.iter().flatten().any(|a| *a == Attempt::Sensor));
    let dng = plan_for(FormatTag::Generic);
    assert_eq!(dng.len(), 3);
    assert_eq!(dng[0].len(), 6);
    assert_eq!(dng[1], vec![Attempt::Sensor]);
    let arw = plan_for(FormatTag::Arw);
    assert_eq!(arw.len(), 4);
    assert_eq!(arw[1], vec![Attempt::Stream(Profile::Sony)]);
    assert_eq!(arw[2], vec![Attempt::Sensor]);
}

#[test]
fn first_preview_success_ends_chain() {
    let (r, tried) = run("a.nef", |a| a == Attempt::Preview(PreviewTag::JpgFromRaw), 0);
    assert_eq!(r, Ok(Attempt::Preview(PreviewTag::JpgFromRaw)));
    assert_eq!(tried.len(), 2);
}

#[test]
fn all_tools_absent_falls_back_to_sensor_decode() {
    for source in ["x.dng", "x.arw", "x.CR2", "x.nef", "noext"] {
        let (r, tried) = run(source, |a| a == Attempt::Sensor, 0);
        assert_eq!(r, Ok(Attempt::Sensor));
        assert_eq!(*tried.last().unwrap(), Attempt::Sensor);
    }
}

#[test]
fn chain_exhausted_when_everything_fails() {
    let (r, tried) = run("x.dng", |_| false, 0);
    assert_eq!(r, Err(DecodeError::ChainExhausted));
    assert_eq!(tried.len(), 9);
    assert_eq!(*tried.last().unwrap(), Attempt::Stream(Profile::GenericTiff));
    let (r, tried) = run("x.raf", |_| false, 0);
    assert_eq!(r, Err(DecodeError::ChainExhausted));
    assert_eq!(tried.len(), 10);
}

#[test]
fn chain_times_out_between_strategies() {
    let (r, tried) = run("x.dng", |_| false, 4001);
    assert_eq!(r, Err(DecodeError::ChainTimeout));
    assert_eq!(tried.len(), 6);
    let (r, _) = run("x.dng", |_| false, 4000);
    assert_eq!(r, Err(DecodeError::ChainExhausted));
}

#[test]
fn advance_moves_within_and_across_strategies() {
    let plan = plan_for(FormatTag::Raf);
    let p = Position { strategy: 1, attempt: 0 };
    assert_eq!(advance(&plan, p, false, 0), Transition::Run(Position { strategy: 1, attempt: 1 }));
    let p = Position { strategy: 1, attempt: 1 };
    assert_eq!(advance(&plan, p, false, 0), Transition::Run(Position { strategy: 2, attempt: 0 }));
    assert_eq!(advance(&plan, p, false, 9000), Transition::Done(ChainEnd::TimedOut));
    assert_eq!(
        advance(&plan, Position { strategy: 2, attempt: 0 }, true, 9000),
        Transition::Done(ChainEnd::Succeeded(Attempt::Thumbnail(Converter::DcrawEmu)))
    );
    assert_eq!(advance(&plan, Position { strategy: 2, attempt: 2 }, false, 0), Transition::Done(ChainEnd::Exhausted));
}
