use device_history::prefs::{load_initial_prefs, parse_prefs, render_prefs};
use device_history::types::Prefs;

fn by_std(content: &str) -> (String, String) {
    let mut theme = "neon".to_string();
    let mut tab = "monitor".to_string();
    for line in content.lines() {
        if let Some((key, val)) = line.split_once('=') {
            match key.trim() {
                "theme" => theme = val.trim().to_string(),
                "active_tab" => tab = val.trim().to_string(),
                _ => {}
            }
        }
    }
    (theme, tab)
}

#[test]
fn default_prefs_are_neon_and_monitor() {
    let p = Prefs::default();
    assert_eq!(p.theme, "neon");
    assert_eq!(p.active_tab, "monitor");
    let p = load_initial_prefs(None);
    assert_eq!(p.theme, "neon");
    assert_eq!(p.active_tab, "monitor");
}

#[test]
fn prefs_are_read_line_by_line() {
    let p = parse_prefs("theme=light\nactive_tab=known\n");
    assert_eq!(p.theme, "light");
    assert_eq!(p.active_tab, "known");
    let p = load_initial_prefs(Some(" theme = mids \r\nunknown=1\nno equals sign\n".to_string()));
    assert_eq!(p.theme, "mids");
    assert_eq!(p.active_tab, "monitor");
    let p = parse_prefs("theme=a\ntheme=b=c\nactive_tab=\n");
    assert_eq!(p.theme, "b=c");
    assert_eq!(p.active_tab, "");
}

#[test]
fn prefs_reading_agrees_with_std_lines() {
    let contents = [
        "",
        "\n",
        "theme=x",
        "theme=x\r",
        "theme=x\r\nactive_tab=y\r\n",
        "theme\r=x\n",
        "=theme\n",
        " theme =\t x y \n\n\nactive_tab = z",
        "THEME=x\nactive_tab=q\rtheme=r\n",
        "theme=1\nactive_tab=2\ntheme=3\nactive_tab=4",
        "theme==\n==active_tab\n",
    ];
    for c in contents {
        let p = parse_prefs(c);
        assert_eq!((p.theme, p.active_tab), by_std(c), "{:?}", c);
    }
}

#[test]
fn prefs_are_written_one_key_per_line() {
    let p = Prefs { theme: "light".to_string(), active_tab: "known".to_string() };
    assert_eq!(render_prefs(&p), "theme=light\nactive_tab=known\n");
    let back = parse_prefs(&render_prefs(&p));
    assert_eq!(back.theme, "light");
    assert_eq!(back.active_tab, "known");
}
