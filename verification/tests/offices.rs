use spelli::libreoffice::{find_libreoffice, find_unopkg};
use spelli::refresh::{
    detect_ms_office, locate_roots, parse_major, CandidateRegKey, InstallMethod, Office,
};

fn office(variant: InstallMethod, major_version: u32) -> Office {
    Office { variant, major_version }
}

fn entry(
    publisher: Option<&str>,
    name: Option<&str>,
    version: Option<&str>,
    location: Option<&str>,
    click_to_run: Option<&str>,
) -> CandidateRegKey {
    CandidateRegKey {
        publisher: publisher.map(String::from),
        display_name: name.map(String::from),
        display_version: version.map(String::from),
        install_location: location.map(String::from),
        click_to_run_component: click_to_run.map(String::from),
    }
}

fn ms(name: &str, version: &str) -> CandidateRegKey {
    entry(Some("Microsoft Corporation"), Some(name), Some(version), None, None)
}

#[test]
fn supported_offices_are_nine() {
    let all = Office::all_supported();
    let expected: Vec<Office> = (10..=16)
        .map(|v| office(InstallMethod::Msi, v))
        .chain((15..=16).map(|v| office(InstallMethod::Click2Run, v)))
        .collect();
    assert_eq!(all, expected);
    assert_eq!(all.len(), 9);
}

#[test]
fn settings_paths_of_an_installer_office() {
    assert_eq!(
        office(InstallMethod::Msi, 14).user_settings_paths_wow64(),
        Some(vec![
            r"SOFTWARE\Microsoft\Office\14.0\User Settings\WinDivvun".to_string(),
            r"SOFTWARE\Wow6432Node\Microsoft\Office\14.0\User Settings\WinDivvun".to_string(),
        ])
    );
    assert_eq!(
        office(InstallMethod::Msi, 16).user_settings_paths(false),
        Some(vec![r"SOFTWARE\Microsoft\Office\16.0\User Settings\WinDivvun".to_string()])
    );
    assert_eq!(
        office(InstallMethod::Msi, 15).user_settings_paths(true),
        office(InstallMethod::Msi, 15).user_settings_paths_wow64()
    );
}

#[test]
fn settings_paths_of_a_click_to_run_office() {
    assert_eq!(
        office(InstallMethod::Click2Run, 16).user_settings_paths_wow64(),
        Some(vec![
            r"SOFTWARE\Microsoft\Office\ClickToRun\REGISTRY\MACHINE\Software\Microsoft\Office\16.0\User Settings\WinDivvun".to_string(),
            r"SOFTWARE\Microsoft\Office\ClickToRun\REGISTRY\MACHINE\Software\Wow6432Node\Microsoft\Office\16.0\User Settings\WinDivvun".to_string(),
        ])
    );
    assert_eq!(
        office(InstallMethod::Click2Run, 14).user_settings_paths(false),
        Some(vec![
            r"SOFTWARE\Microsoft\Office\ClickToRun\REGISTRY\MACHINE\Software\Microsoft\Office\14.0\User Settings\WinDivvun".to_string(),
        ])
    );
    assert_eq!(
        office(InstallMethod::Click2Run, 15).user_settings_paths(false),
        Some(vec![
            r"SOFTWARE\Microsoft\Office\ClickToRun\REGISTRY\MACHINE\Software\Microsoft\Office\15.0\User Settings\WinDivvun".to_string(),
        ])
    );
}

#[test]
fn versions_without_settings_have_no_paths() {
    for v in [0, 10, 11, 12, 13, 17, 2016, u32::MAX] {
        assert_eq!(office(InstallMethod::Msi, v).user_settings_paths_wow64(), None);
        assert_eq!(office(InstallMethod::Click2Run, v).user_settings_paths(false), None);
    }
}

#[test]
fn roots_of_a_cycle() {
    let narrow = locate_roots(false);
    assert_eq!(
        narrow,
        vec![
            r"SOFTWARE\Microsoft\Office\14.0\User Settings\WinDivvun".to_string(),
            r"SOFTWARE\Microsoft\Office\15.0\User Settings\WinDivvun".to_string(),
            r"SOFTWARE\Microsoft\Office\16.0\User Settings\WinDivvun".to_string(),
            r"SOFTWARE\Microsoft\Office\ClickToRun\REGISTRY\MACHINE\Software\Microsoft\Office\15.0\User Settings\WinDivvun".to_string(),
            r"SOFTWARE\Microsoft\Office\ClickToRun\REGISTRY\MACHINE\Software\Microsoft\Office\16.0\User Settings\WinDivvun".to_string(),
        ]
    );
    let wide = locate_roots(true);
    assert_eq!(wide.len(), 10);
    for (i, root) in narrow.iter().enumerate() {
        assert_eq!(&wide[2 * i], root);
        assert!(wide[2 * i + 1].contains(r"\Wow6432Node\"));
    }
}

#[test]
fn parse_major_reads_the_leading_number() {
    assert_eq!(parse_major("16.0.4266.1001"), Some(16));
    assert_eq!(parse_major("14"), Some(14));
    assert_eq!(parse_major("+15.0"), Some(15));
    assert_eq!(parse_major("007.1"), Some(7));
    assert_eq!(parse_major("0"), Some(0));
    assert_eq!(parse_major("4294967295.0"), Some(4294967295));
}

#[test]
fn parse_major_refuses_what_is_no_number() {
    for s in [
        "", ".", ".16", "+", "+.1", "-1.0", "16a.0", " 16.0", "16 .0", "1_6.0", "++1", "x",
        "4294967296", "4294967296.0", "99999999999999999999999.1", "١٦.0",
    ] {
        assert_eq!(parse_major(s), None, "{s:?}");
    }
}

#[test]
fn parse_major_agrees_with_the_number_parser() {
    for s in ["12", "+12", "0012", "12.5", "4294967295", "4294967296", "42949672950", "", "+", "1+"] {
        let head = s.split('.').next().unwrap();
        assert_eq!(parse_major(s), head.parse::<u32>().ok(), "{s:?}");
    }
}

#[test]
fn office_entries_are_recognised() {
    assert_eq!(
        ms("Microsoft Office Professional Plus 2016", "16.0.4266.1001").validate_office(),
        Some(office(InstallMethod::Msi, 16))
    );
    let c2r = entry(
        Some("Microsoft Corporation"),
        Some("Microsoft Office 365"),
        Some("15.0.1"),
        None,
        Some("Office"),
    );
    assert_eq!(c2r.validate_office(), Some(office(InstallMethod::Click2Run, 15)));
    assert_eq!(ms("Microsoft Office", "9").validate_office(), Some(office(InstallMethod::Msi, 9)));
}

#[test]
fn other_entries_are_no_office() {
    assert_eq!(ms("Microsoft Visual Studio", "16.0").validate_office(), None);
    assert_eq!(ms("microsoft office", "16.0").validate_office(), None);
    assert_eq!(ms("Microsoft Office", "sixteen").validate_office(), None);
    assert_eq!(ms("Microsoft Office", "").validate_office(), None);
    let no_version = entry(Some("Microsoft Corporation"), Some("Microsoft Office"), None, None, None);
    assert_eq!(no_version.validate_office(), None);
    let no_name = entry(Some("Microsoft Corporation"), None, Some("16.0"), None, None);
    assert_eq!(no_name.validate_office(), None);
    let no_publisher = entry(None, Some("Microsoft Office"), Some("16.0"), None, None);
    assert_eq!(no_publisher.validate_office(), None);
    let other = entry(Some("Microsoft Corporation "), Some("Microsoft Office"), Some("16.0"), None, None);
    assert_eq!(other.validate_office(), None);
    let other = entry(Some("Microsoft"), Some("Microsoft Office"), Some("16.0"), None, None);
    assert_eq!(other.validate_office(), None);
}

#[test]
fn detect_keeps_the_offices_in_order() {
    let entries = vec![
        ms("Microsoft Office 2013", "15.0"),
        entry(None, Some("LibreOffice 7.4"), Some("7.4"), Some(r"C:\LO"), None),
        ms("Microsoft Edge", "100.0"),
        entry(Some("Microsoft Corporation"), Some("Microsoft Office 365"), Some("16.1"), None, Some("x")),
        ms("Microsoft Office 2010", "14.0.7015"),
    ];
    assert_eq!(
        detect_ms_office(&entries),
        vec![
            office(InstallMethod::Msi, 15),
            office(InstallMethod::Click2Run, 16),
            office(InstallMethod::Msi, 14),
        ]
    );
    assert_eq!(detect_ms_office(&Vec::new()), Vec::<Office>::new());
}

#[test]
fn libreoffice_entries_are_recognised() {
    let lo = entry(None, Some("LibreOffice 7.4.2.3"), None, Some(r"C:\Program Files\LibreOffice"), None);
    assert_eq!(
        lo.validate_libreoffice().map(|l| l.install_path),
        Some(r"C:\Program Files\LibreOffice".to_string())
    );
    let nowhere = entry(None, Some("LibreOffice"), None, None, None);
    assert!(nowhere.validate_libreoffice().is_none());
    let other = entry(None, Some("OpenOffice"), None, Some(r"C:\OO"), None);
    assert!(other.validate_libreoffice().is_none());
    let unnamed = entry(None, None, None, Some(r"C:\LO"), None);
    assert!(unnamed.validate_libreoffice().is_none());
}

#[test]
fn the_first_libreoffice_is_found() {
    let entries = vec![
        ms("Microsoft Office 2013", "15.0"),
        entry(None, Some("LibreOffice"), None, None, None),
        entry(None, Some("LibreOffice 7"), None, Some("first"), None),
        entry(None, Some("LibreOffice 6"), None, Some("second"), None),
    ];
    assert_eq!(find_libreoffice(&entries).map(|l| l.install_path), Some("first".to_string()));
    assert!(find_libreoffice(&entries[..2].iter().map(copy).collect()).is_none());
}

fn copy(c: &CandidateRegKey) -> CandidateRegKey {
    CandidateRegKey {
        publisher: c.publisher.clone(),
        display_name: c.display_name.clone(),
        display_version: c.display_version.clone(),
        install_location: c.install_location.clone(),
        click_to_run_component: c.click_to_run_component.clone(),
    }
}

#[test]
fn unopkg_is_looked_for_under_the_installation() {
    let entries = vec![entry(None, Some("LibreOffice 7"), None, Some("lo"), None)];
    let expected = std::path::Path::new("lo").join("program").join("unopkg.com");
    assert_eq!(find_unopkg(&entries), Some(expected.to_string_lossy().into_owned()));
    let path = find_unopkg(&entries).unwrap();
    assert!(path.starts_with("lo"));
    assert!(path.ends_with("unopkg.com"));
    assert_ne!(path, "lo");
}

#[test]
fn without_libreoffice_there_is_no_unopkg() {
    assert_eq!(find_unopkg(&Vec::new()), None);
    assert_eq!(find_unopkg(&vec![ms("Microsoft Office", "16.0")]), None);
}
