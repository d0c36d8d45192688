use spotijay::login::{login_from_pairs, login_redirect};

fn pairs(v: &[(&str, &str)]) -> Vec<(String, String)> {
    v.iter().map(|(k, v)| (k.to_string(), v.to_string())).collect()
}

#[test]
fn login_is_read_from_the_redirect_fragment() {
    assert_eq!(
        login_redirect("http://localhost:8000/#access_token=BQDf_x&token_type=Bearer&expires_in=3600"),
        Some(("BQDf_x".to_string(), 3600))
    );
}

#[test]
fn login_values_are_form_decoded() {
    assert_eq!(
        login_redirect("https://spotijay.example/#expires_in=%2B60&access_token=a%2Bb+c%3D"),
        Some(("a+b c=".to_string(), 60))
    );
}

#[test]
fn login_needs_token_and_seconds() {
    assert_eq!(login_redirect("http://localhost:8000/#token_type=Bearer&expires_in=3600"), None);
    assert_eq!(login_redirect("http://localhost:8000/#access_token=abc"), None);
    assert_eq!(login_redirect("http://localhost:8000/"), None);
    assert_eq!(login_redirect("http://localhost:8000/#access_token=abc&expires_in=soon"), None);
    assert_eq!(login_redirect("http://localhost:8000/#access_token=abc&expires_in=-1"), None);
    assert_eq!(
        login_redirect("http://localhost:8000/#access_token=abc&expires_in=18446744073709551616"),
        None
    );
}

#[test]
fn login_needs_a_url() {
    assert_eq!(login_redirect("no address#access_token=abc&expires_in=1"), None);
}

#[test]
fn first_pairs_count() {
    assert_eq!(
        login_from_pairs(&pairs(&[
            ("access_token", "one"),
            ("expires_in", "5"),
            ("access_token", "two"),
            ("expires_in", "x"),
        ])),
        Some(("one".to_string(), 5))
    );
    assert_eq!(login_from_pairs(&pairs(&[("expires_in", "+7"), ("access_token", "")])), Some((String::new(), 7)));
    assert_eq!(login_from_pairs(&pairs(&[("expires_in", "+"), ("access_token", "t")])), None);
    assert_eq!(login_from_pairs(&pairs(&[("expires_in", ""), ("access_token", "t")])), None);
    assert_eq!(
        login_from_pairs(&pairs(&[("expires_in", "18446744073709551615"), ("access_token", "t")])),
        Some(("t".to_string(), u64::MAX))
    );
    assert_eq!(login_from_pairs(&pairs(&[])), None);
}
