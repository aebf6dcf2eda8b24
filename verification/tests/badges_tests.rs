use holligerme::badges::{badges_from_converted, generate_badge_file, parse_badge_csv};

fn converted() -> Vec<(String, String, Vec<String>)> {
    vec![(
        "me".to_string(),
        "https://me.org/?a=1&b=2".to_string(),
        vec!["/w/artifacts/publish/1_88.webp".to_string(), "/w/artifacts/publish/1_88.png".to_string()],
    )]
}

#[test]
fn badge_rows_need_three_fields() {
    let rows = parse_badge_csv("me,https://me.org,img/me.gif\nbad,row\nyou,https://you.org,http://x/y.png,extra\n");
    assert_eq!(
        rows,
        vec![
            ("me".to_string(), "https://me.org".to_string(), "img/me.gif".to_string()),
            ("you".to_string(), "https://you.org".to_string(), "http://x/y.png".to_string()),
        ]
    );
    assert!(parse_badge_csv("").is_empty());
}

#[test]
fn badges_take_published_names() {
    let (badges, sources) = badges_from_converted(&converted(), "/generated/88x31_");
    assert_eq!(badges.len(), 1);
    assert_eq!(badges[0].name, "me");
    assert_eq!(badges[0].paths, vec!["me.webp".to_string(), "me.png".to_string()]);
    assert_eq!(
        sources,
        vec![
            ("/generated/88x31_me.webp".to_string(), "/w/artifacts/publish/1_88.webp".to_string()),
            ("/generated/88x31_me.png".to_string(), "/w/artifacts/publish/1_88.png".to_string()),
        ]
    );
}

#[test]
fn badge_html_and_data() {
    let (html, badges, data) = generate_badge_file(converted(), vec![vec![1, 2], vec![3]]);
    assert_eq!(
        html,
        "<a href=\"https://me.org/?a=1&amp;b=2\" target=\"_blank\"><picture class=\"eightyeightthirtyone\"><source alt=\"me\" srcset=\"/generated/88x31_me.webp\" type=\"image/webp\"><img alt=\"me\" width=\"88\" height=\"31\" src=\"/generated/88x31_me.png\"></picture></a>"
    );
    assert_eq!(badges[0].url, "https://me.org/?a=1&b=2");
    assert_eq!(
        data,
        vec![("/generated/88x31_me.webp".to_string(), vec![1, 2]), ("/generated/88x31_me.png".to_string(), vec![3])]
    );
}
