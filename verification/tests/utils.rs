use plush::utils::thousands_sep;

#[test]
fn thousands()
{
    assert_eq!(thousands_sep(0), "0");
    assert_eq!(thousands_sep(7), "7");
    assert_eq!(thousands_sep(999), "999");
    assert_eq!(thousands_sep(1000), "1,000");
    assert_eq!(thousands_sep(1000000), "1,000,000");
    assert_eq!(thousands_sep(-999), "-999");
    assert_eq!(thousands_sep(-1000), "-1,000");
    assert_eq!(thousands_sep(-123456), "-123,456");
    assert_eq!(thousands_sep(i64::MIN), "-9,223,372,036,854,775,808");
}

#[test]
fn thousands_at_group_edges()
{
    assert_eq!(thousands_sep(100), "100");
    assert_eq!(thousands_sep(123456), "123,456");
    assert_eq!(thousands_sep(1234567), "1,234,567");
    assert_eq!(thousands_sep(i64::MAX), "9,223,372,036,854,775,807");
}
