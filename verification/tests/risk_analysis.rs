//! Risk statistics on concrete series.
use qlib_core::number::Number;
use qlib_core::integer::Integer;
use qlib_core::frequency::{Frequency, FrequencyUnit};
use qlib_core::risk_analysis::{risk_analysis, RiskAnalysisError, RiskAnalysisOutput, RiskAnalysisWarningCategory, Statistic};

#[derive(Clone, Copy, Debug, PartialEq)]
struct Real(f64);

impl Number for Real {
    fn is_missing(self) -> bool {
        self.0.is_nan()
    }

    fn nothing() -> Self {
        Real(f64::NAN)
    }

    fn zero() -> Self {
        Real(0.0)
    }

    fn one() -> Self {
        Real(1.0)
    }

    fn count(count: usize) -> Self {
        Real(count as f64)
    }

    fn plus(self, other: Self) -> Self {
        Real(self.0 + other.0)
    }

    fn minus(self, other: Self) -> Self {
        Real(self.0 - other.0)
    }

    fn times(self, other: Self) -> Self {
        Real(self.0 * other.0)
    }

    fn over(self, other: Self) -> Self {
        Real(self.0 / other.0)
    }

    fn absolute(self) -> Self {
        Real(self.0.abs())
    }

    fn below(self, other: Self) -> bool {
        self.0 < other.0
    }

    fn equals(self, other: Self) -> bool {
        self.0 == other.0
    }
}

impl Statistic for Real {
    fn sum_start() -> Self {
        Real(-0.0)
    }

    fn is_infinite(self) -> bool {
        self.0.is_infinite()
    }

    fn is_finite(self) -> bool {
        self.0.is_finite()
    }

    fn is_negative(self) -> bool {
        self.0.is_sign_negative()
    }

    fn is_whole(self) -> bool {
        self.0.fract() == 0.0
    }

    fn greater(self, other: Self) -> Self {
        Real(self.0.max(other.0))
    }

    fn lesser(self, other: Self) -> Self {
        Real(self.0.min(other.0))
    }

    fn root(self) -> Self {
        Real(self.0.sqrt())
    }

    fn logarithm(self) -> Self {
        Real(self.0.ln())
    }

    fn power(self, exponent: Self) -> Self {
        Real(self.0.powf(exponent.0))
    }

    fn of_integer(value: &Integer) -> Option<Self> {
        value.to_i128().map(|number| Real(number as f64))
    }
}

type Read = Result<Frequency, String>;

fn series(values: &[f64]) -> Vec<Real> {
    values.iter().map(|value| Real(*value)).collect()
}

fn run(values: &[f64], n: Option<f64>, frequency: Option<Read>, mode: &str) -> Result<RiskAnalysisOutput<Real>, RiskAnalysisError<String>> {
    risk_analysis(&series(values), n.map(Real), frequency, mode)
}

#[test]
fn sum_mode_gives_the_five_statistics() {
    let output = run(&[1.0, -2.0, 4.0], Some(4.0), None, "sum").unwrap();
    assert_eq!(output.result.mean, Real(1.0));
    assert_eq!(output.result.std, Real(3.0));
    assert_eq!(output.result.annualized_return, Real(4.0));
    assert_eq!(output.result.information_ratio, Real(1.0 / 3.0 * 2.0));
    assert_eq!(output.result.max_drawdown, Real(-2.0));
    assert!(output.warnings.is_empty());
    assert_eq!(output.result.ordered_values()[4], Real(-2.0));
}

#[test]
fn product_mode_compounds() {
    let output = run(&[1.0, -0.5], Some(2.0), None, "product").unwrap();
    assert_eq!(output.result.mean, Real(0.0));
    assert_eq!(output.result.annualized_return, Real(0.0));
    assert_eq!(output.result.max_drawdown, Real(-0.5));
}

#[test]
fn a_frequency_beside_a_scaler_warns() {
    let frequency = Ok(Frequency { count: Integer::from_usize(0), unit: FrequencyUnit::Day });
    let output = run(&[1.0], Some(1.0), Some(frequency), "sum").unwrap();
    assert_eq!(output.warnings.len(), 1);
    assert_eq!(output.warnings[0].category, RiskAnalysisWarningCategory::UserWarning);
    assert_eq!(output.warnings[0].message, "risk_analysis freq will be ignored");
}

#[test]
fn arguments_are_refused_in_order() {
    assert!(matches!(run(&[1.0], None, None, "sum"), Err(RiskAnalysisError::MissingAnnualization)));
    assert!(matches!(
        run(&[1.0], None, Some(Err("bad".to_owned())), "sum"),
        Err(RiskAnalysisError::InvalidFrequency { source }) if source == "bad"
    ));
    let none = Ok(Frequency { count: Integer::zero(), unit: FrequencyUnit::Week });
    assert!(matches!(run(&[1.0], None, Some(none), "sum"), Err(RiskAnalysisError::ZeroFrequency)));
    assert!(matches!(run(&[], Some(1.0), None, "product"), Err(RiskAnalysisError::EmptyProduct)));
    match run(&[1.0], Some(1.0), None, "mean") {
        Err(error) => assert_eq!(
            error.message(),
            "risk_analysis accumulation mode mean is not supported. Expected `sum` or `product`."
        ),
        Ok(_) => panic!("the mode is not one"),
    }
}

#[test]
fn frequencies_give_scalers() {
    for (unit, periods) in [
        (FrequencyUnit::Minute, 57120.0),
        (FrequencyUnit::Day, 238.0),
        (FrequencyUnit::Week, 50.0),
        (FrequencyUnit::Month, 12.0),
    ] {
        let frequency = Ok(Frequency { count: Integer::from_usize(2), unit });
        let output = run(&[1.0], None, Some(frequency), "sum").unwrap();
        assert_eq!(output.result.annualized_return, Real(periods / 2.0));
    }
}

#[test]
fn long_series_are_added_in_lanes_and_halves() {
    let short: Vec<f64> = (0..20).map(|i| i as f64).collect();
    assert_eq!(run(&short, Some(1.0), None, "sum").unwrap().result.mean, Real(9.5));
    let long: Vec<f64> = (0..300).map(|i| i as f64).collect();
    assert_eq!(run(&long, Some(1.0), None, "sum").unwrap().result.mean, Real(149.5));
    // The order of the additions shows where values cancel out.
    let mut mixed = vec![0.0; 16];
    mixed[0] = 1e16;
    mixed[8] = 1.0;
    mixed[1] = -1e16;
    let total = run(&mixed, Some(1.0), None, "sum").unwrap().result.mean;
    assert_eq!(total, Real(0.0 / 16.0));
}

#[test]
fn special_values_warn_in_order() {
    let output = run(&[f64::INFINITY, f64::NEG_INFINITY], Some(-1.0), None, "sum").unwrap();
    let messages: Vec<&str> = output.warnings.iter().map(|warning| warning.message.as_str()).collect();
    assert_eq!(
        messages,
        vec![
            "invalid value encountered in reduce",
            "invalid value encountered in reduce",
            "invalid value encountered in accumulate",
            "invalid value encountered in accumulate",
            "invalid value encountered in sqrt",
        ]
    );
    let product = run(&[-1.0, -3.0], Some(1.0), None, "product").unwrap();
    let messages: Vec<&str> = product.warnings.iter().map(|warning| warning.message.as_str()).collect();
    assert!(messages.contains(&"divide by zero encountered in log"));
    assert!(messages.contains(&"invalid value encountered in log"));
    let constant = run(&[2.0, 2.0], Some(1.0), None, "sum").unwrap();
    assert_eq!(constant.warnings[0].message, "divide by zero encountered in scalar divide");
}

#[test]
fn missing_returns_leave_the_drawdown_alone() {
    let plain = run(&[3.0, -1.0], Some(1.0), None, "sum").unwrap();
    let gaps = run(&[3.0, f64::NAN, -1.0, f64::NAN], Some(1.0), None, "sum").unwrap();
    assert_eq!(plain.result.max_drawdown, gaps.result.max_drawdown);
    assert_eq!(plain.result.mean, gaps.result.mean);
    assert!(run(&[], Some(1.0), None, "sum").unwrap().result.mean.is_missing());
}
