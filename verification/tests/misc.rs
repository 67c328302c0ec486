use rialight::app_config::{
    is_id_valid, ApplicationConfig, ApplicationConfigError, ApplicationPackageConfig,
    ApplicationPackageMetadataConfig, ApplicationRialightConfig, ApplicationRootConfig,
};
use rialight::conversion_traits::PrimitiveOrOwnedStringToOwned;
use rialight::temporal::{Calendar, Duration, Instant, ZonedDateTime, ZonedDateTimeOptions};
use rialight::timing::{
    timeout_outcome, BackgroundInterval, BackgroundTimeout, ElapsedError, Interval, IntervalStep,
    TickAction,
};

fn root(id: &str, title: &str) -> ApplicationRootConfig {
    ApplicationRootConfig {
        package: ApplicationPackageConfig {
            metadata: ApplicationPackageMetadataConfig {
                rialight: ApplicationRialightConfig {
                    application: ApplicationConfig { id: id.to_string(), title: title.to_string() },
                },
            },
        },
    }
}

#[test]
fn application_ids() {
    assert!(is_id_valid("com.example.app"));
    assert!(is_id_valid("--a--"));
    assert!(!is_id_valid(""));
    assert!(!is_id_valid("-.-"));
    assert!(!is_id_valid("\u{e9}"));
}

#[test]
fn application_config_is_read() {
    let read = ApplicationConfig::read(Some(root("com.example", "Example"))).unwrap();
    assert_eq!(read.package.metadata.rialight.application.id, "com.example");
    assert_eq!(read.package.metadata.rialight.application.title, "Example");
    assert!(matches!(ApplicationConfig::read(None), Err(ApplicationConfigError::NotFound)));
    assert!(matches!(
        ApplicationConfig::read(Some(root("...", "Example"))),
        Err(ApplicationConfigError::InvalidId)
    ));
}

#[test]
fn conversions_to_owned() {
    assert_eq!("abc".convert(), "abc".to_string());
    assert_eq!("abc".to_string().convert(), "abc".to_string());
}

#[test]
fn durations() {
    assert_eq!(Duration::from_milliseconds(-5).milliseconds(), -5);
    assert_eq!(Duration::from_milliseconds(-5).abs().milliseconds(), 5);
    assert_eq!(Duration::from_milliseconds(7).abs().milliseconds(), 7);
    assert_eq!(Duration::from_milliseconds(-i64::MAX).abs().milliseconds(), i64::MAX);
    assert!(Duration::try_from_milliseconds(i64::MIN).is_err());
    assert_eq!(Duration::try_from_milliseconds(3).unwrap().milliseconds(), 3);
    assert_eq!(Duration::try_from_std(1500).unwrap().milliseconds(), 1500);
    assert_eq!(Duration::try_from_std(i64::MAX as u128).unwrap().milliseconds(), i64::MAX);
    assert!(Duration::try_from_std(i64::MAX as u128 + 1).is_err());
    assert!(Duration::from_milliseconds(7).try_into_std() == Ok(7));
    assert!(Duration::from_milliseconds(-7).try_into_std().is_err());
}

#[test]
fn instants() {
    let start = Instant::epoch_start();
    assert_eq!(start.epoch(), 0);
    let later = Instant::from_epoch(Duration::from_milliseconds(1500));
    assert_eq!(later.epoch(), 1500);
    assert_eq!(later.since(start), 1500);
    assert_eq!(start.since(later), 0);
    assert!(Instant::try_from_epoch(Duration::from_milliseconds(-1)).is_err());
    assert_eq!(later.try_add(Duration::from_milliseconds(500)).unwrap().epoch(), 2000);
    assert_eq!(later.try_add(Duration::from_milliseconds(-500)).unwrap().epoch(), 1000);
    assert_eq!(later.try_subtract(Duration::from_milliseconds(500)).unwrap().epoch(), 1000);
    assert_eq!(later.try_subtract(Duration::from_milliseconds(-500)).unwrap().epoch(), 2000);
    assert!(later.try_subtract(Duration::from_milliseconds(1501)).is_none());
    assert!(later.try_add(Duration::from_milliseconds(-1501)).is_none());
    let far = start.try_add_milliseconds(u128::MAX).unwrap();
    assert!(far.try_add_milliseconds(1).is_none());
    assert_eq!(far.epoch(), u64::MAX);
    assert_eq!(far.since(start), u64::MAX);
    assert!(start.try_subtract_milliseconds(1).is_none());
}

#[test]
fn zoned_date_time_options() {
    let options = ZonedDateTimeOptions::default();
    assert!(options.timezone.is_none());
    assert!(options.calendar == Calendar::Iso8601);
    assert!(options.year.is_none() && options.month.is_none() && options.day.is_none());
    assert_eq!(
        (options.hour, options.minute, options.second, options.millisecond),
        (0, 0, 0, 0)
    );
    assert_eq!((options.microsecond, options.nanosecond), (0, 0));
}

#[test]
fn elapsed_error() {
    assert_eq!(ElapsedError.message(), "Timeout expired");
    assert!(timeout_outcome(0).is_ok());
    assert!(timeout_outcome(1) == Err(ElapsedError));
}

#[test]
fn background_timeout_stops() {
    let mut timeout = BackgroundTimeout::new();
    assert!(timeout.fires());
    timeout.stop();
    assert!(!timeout.fires());
    timeout.stop();
    assert!(!timeout.fires());
}

#[test]
fn background_interval_stops() {
    let mut interval = BackgroundInterval::new();
    assert!(interval.on_tick(16) == TickAction::Call(16));
    interval.stop();
    assert!(interval.on_tick(16) == TickAction::Stop);
}

#[test]
fn interval_begins_once() {
    let start = Instant::from_epoch(Duration::from_milliseconds(50));
    let mut interval = Interval::new(true, 10, start);
    assert!(
        interval.tick() == IntervalStep::Begin { start, period: 10, for_animation: true }
    );
    assert!(interval.tick() == IntervalStep::Tick);
    assert!(interval.tick() == IntervalStep::Tick);
    assert!(Interval::try_new(false, 0, start).is_none());
    assert!(Interval::try_new(false, 1u128 << 32, start).is_none());
    let mut longest = Interval::try_new(false, u32::MAX.into(), start).unwrap();
    assert!(
        longest.tick() == IntervalStep::Begin { start, period: u32::MAX, for_animation: false }
    );
}

#[test]
fn zoned_date_times() {
    let moment = ZonedDateTime::try_from("1970-01-01T00:00:01.444Z").unwrap();
    assert_eq!(moment.epoch().milliseconds(), 1_444);
    assert!(moment.calendar() == Calendar::Iso8601);
    let moment = ZonedDateTime::try_from("2001-09-09 01:46:40.555+00:00").unwrap();
    assert_eq!(moment.epoch().milliseconds(), 1_000_000_000_555);
    let moment = ZonedDateTime::try_from("1969-12-31T23:00:00-01:00").unwrap();
    assert_eq!(moment.epoch().milliseconds(), 0);
    assert_eq!(Instant::try_from_epoch(moment.epoch()).unwrap().epoch(), 0);
    assert!(ZonedDateTime::try_from("yesterday").is_err());
    assert!(ZonedDateTime::try_from("").is_err());
}
