use fcp::{AdjRequest, Error, GetRequest, Request, Response, SetRequest};

fn parse(s: &str) -> Result<Request, Error> {
    Request::parse(s.as_bytes())
}

fn all_get() -> [GetRequest; 5] {
    [
        GetRequest::All,
        GetRequest::Config,
        GetRequest::Percentage,
        GetRequest::Temperature,
        GetRequest::Voltage,
    ]
}

#[test]
fn round_trip_every_variant() {
    let mut reqs: Vec<Request> = all_get().iter().map(|g| Request::Get(*g)).collect();
    reqs.extend([
        Request::SetTarget(SetRequest::Auto),
        Request::SetTarget(SetRequest::Voltage(0)),
        Request::SetTarget(SetRequest::Voltage(500)),
        Request::SetTarget(SetRequest::Voltage(u16::MAX)),
        Request::SetTarget(SetRequest::Percentage(0)),
        Request::SetTarget(SetRequest::Percentage(u8::MAX)),
        Request::Adj(AdjRequest::Voltage(i16::MIN)),
        Request::Adj(AdjRequest::Voltage(-25)),
        Request::Adj(AdjRequest::Voltage(0)),
        Request::Adj(AdjRequest::Voltage(i16::MAX)),
        Request::Adj(AdjRequest::Percentage(i8::MIN)),
        Request::Adj(AdjRequest::Percentage(i8::MAX)),
    ]);
    for r in reqs {
        assert_eq!(Request::parse(&r.to_bytes()), Ok(r));
        assert_eq!(parse(&r.to_string()), Ok(r));
    }
}

#[test]
fn rendering_exact_text() {
    assert_eq!(Request::Get(GetRequest::Voltage).to_string(), "GET volt");
    assert_eq!(Request::Get(GetRequest::All).to_bytes(), b"GET all".to_vec());
    assert_eq!(Request::SetTarget(SetRequest::Auto).to_string(), "SET a");
    assert_eq!(Request::SetTarget(SetRequest::Voltage(500)).to_string(), "SET v500");
    assert_eq!(Request::SetTarget(SetRequest::Percentage(0)).to_string(), "SET %0");
    assert_eq!(Request::Adj(AdjRequest::Voltage(-25)).to_string(), "ADJ v-25");
    assert_eq!(Request::Adj(AdjRequest::Voltage(25)).to_string(), "ADJ v25");
    assert_eq!(Request::Adj(AdjRequest::Percentage(-128)).to_string(), "ADJ %-128");
    assert_eq!(format!("{};", Request::Adj(AdjRequest::Voltage(-25)).to_string()), "ADJ v-25;");
}

#[test]
fn token_bijection() {
    for g in all_get() {
        assert_eq!(GetRequest::parse(g.val_str().as_bytes()), Ok(g));
        for h in all_get() {
            if g != h {
                assert_ne!(g.val_str(), h.val_str());
            }
        }
    }
    assert_eq!(GetRequest::All.val_str(), "all");
    assert_eq!(GetRequest::Config.val_str(), "cfg");
    assert_eq!(GetRequest::Percentage.val_str(), "%");
    assert_eq!(GetRequest::Temperature.val_str(), "temp");
    assert_eq!(GetRequest::Voltage.val_str(), "volt");
}

#[test]
fn boundary_values() {
    assert_eq!(parse("SET v0"), Ok(Request::SetTarget(SetRequest::Voltage(0))));
    assert_eq!(parse("SET v65535"), Ok(Request::SetTarget(SetRequest::Voltage(65535))));
    assert_eq!(parse("SET v65536"), Err(Error::InvalidValue));
    assert_eq!(parse("SET %255"), Ok(Request::SetTarget(SetRequest::Percentage(255))));
    assert_eq!(parse("SET %256"), Err(Error::InvalidValue));
    assert_eq!(parse("ADJ v-32768"), Ok(Request::Adj(AdjRequest::Voltage(-32768))));
    assert_eq!(parse("ADJ v32767"), Ok(Request::Adj(AdjRequest::Voltage(32767))));
    assert_eq!(parse("ADJ v-32769"), Err(Error::InvalidValue));
    assert_eq!(parse("ADJ v32768"), Err(Error::InvalidValue));
    assert_eq!(parse("ADJ %-128"), Ok(Request::Adj(AdjRequest::Percentage(-128))));
    assert_eq!(parse("ADJ %127"), Ok(Request::Adj(AdjRequest::Percentage(127))));
    assert_eq!(parse("ADJ %-129"), Err(Error::InvalidValue));
    assert_eq!(parse("ADJ %128"), Err(Error::InvalidValue));
    assert_eq!(parse("SET v99999999999999999999"), Err(Error::InvalidValue));
    assert_eq!(
        parse("SET v0000000000000000000042"),
        Ok(Request::SetTarget(SetRequest::Voltage(42)))
    );
}

#[test]
fn dispatch_precedence() {
    assert_eq!(parse(""), Err(Error::Empty));
    assert_eq!(parse("SET"), Err(Error::MissingValue));
    assert_eq!(parse("GET"), Err(Error::MissingValue));
    assert_eq!(parse("ADJ"), Err(Error::MissingValue));
    assert_eq!(parse("LOL"), Err(Error::UnknownRequestType));
    assert_eq!(parse("LOL x"), Err(Error::UnknownRequestType));
    assert_eq!(parse("get cfg"), Err(Error::UnknownRequestType));
    assert_eq!(parse(" cfg"), Err(Error::UnknownRequestType));
    assert_eq!(parse("GET 55"), Err(Error::InvalidValue));
    assert_eq!(parse("ADJ -"), Err(Error::InvalidValue));
    assert_eq!(parse("GET "), Err(Error::InvalidValue));
    assert_eq!(parse("SET "), Err(Error::MissingValue));
    assert_eq!(parse("ADJ "), Err(Error::MissingValue));
    assert_eq!(parse("GET  cfg"), Err(Error::InvalidValue));
    assert_eq!(parse("GET cfg "), Err(Error::InvalidValue));
}

#[test]
fn auto_exactness() {
    assert_eq!(parse("SET a"), Ok(Request::SetTarget(SetRequest::Auto)));
    assert_eq!(parse("SET ab"), Err(Error::InvalidValue));
    assert_eq!(parse("ADJ a"), Err(Error::InvalidValue));
}

#[test]
fn sign_handling() {
    assert_eq!(parse("ADJ %+55"), Ok(Request::Adj(AdjRequest::Percentage(55))));
    assert_eq!(parse("ADJ v+02"), Ok(Request::Adj(AdjRequest::Voltage(2))));
    assert_eq!(parse("SET v-1"), Err(Error::InvalidValue));
    assert_eq!(parse("SET v+7"), Ok(Request::SetTarget(SetRequest::Voltage(7))));
    assert_eq!(parse("SET v-0"), Err(Error::InvalidValue));
    assert_eq!(parse("SET v+"), Err(Error::InvalidValue));
    assert_eq!(parse("ADJ v-"), Err(Error::InvalidValue));
    assert_eq!(parse("ADJ v+"), Err(Error::InvalidValue));
    assert_eq!(parse("ADJ v+-3"), Err(Error::InvalidValue));
    assert_eq!(parse("ADJ v-0"), Ok(Request::Adj(AdjRequest::Voltage(0))));
    assert_eq!(parse("SET v"), Err(Error::InvalidValue));
}

#[test]
fn end_to_end_scenarios() {
    let r = parse("GET volt").unwrap();
    assert_eq!(r, Request::Get(GetRequest::Voltage));
    assert_eq!(r.to_string(), "GET volt");
    assert_eq!(parse("SET %93"), Ok(Request::SetTarget(SetRequest::Percentage(93))));
    assert_eq!(parse("ADJ v-11"), Ok(Request::Adj(AdjRequest::Voltage(-11))));
    assert_eq!(parse(""), Err(Error::Empty));
    assert_eq!(parse("GET shoesize"), Err(Error::InvalidValue));
}

#[test]
fn from_str_matches_parse() {
    let r: Request = "SET v500".parse().unwrap();
    assert_eq!(r, Request::SetTarget(SetRequest::Voltage(500)));
    let e: Result<Request, Error> = "FETCH x".parse();
    assert_eq!(e, Err(Error::UnknownRequestType));
    let g: Request = "GET all".parse().unwrap();
    assert_eq!(g, Request::Get(GetRequest::All));
}

#[test]
fn method_words() {
    assert_eq!(Request::Get(GetRequest::Config).method(), "GET");
    assert_eq!(Request::SetTarget(SetRequest::Auto).method(), "SET");
    assert_eq!(Request::Adj(AdjRequest::Percentage(-3)).method(), "ADJ");
}

#[test]
fn error_messages() {
    assert_eq!(Error::Empty.message(), "empty request");
    assert_eq!(Error::UnknownRequestType.message(), "unknown request type");
    assert_eq!(Error::InvalidValue.message(), "invalid value");
    assert_eq!(Error::MissingValue.message(), "missing value");
    assert_eq!(Error::MissingValue.to_string(), "missing value");
}

#[test]
fn response_codes() {
    assert_eq!(Response::Success(String::from("fan at 40%")).code(), 0);
    assert_eq!(Response::Failure(Error::InvalidValue).code(), 1);
}
