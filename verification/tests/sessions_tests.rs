use trafmon::sessions::{stale_session_names, SESSION_NAME};

#[test]
fn finds_sessions_left_behind() {
    let listing = "Data Collector Set                      Type                          Status\r\n\
-------------------------------------------------------------------------------\r\n\
Circular Kernel Context Logger          Trace                         Running\r\n\
Trafmon-NetProc                         Trace                         Running\r\n\
  Trafmon-NetProc-1234                  Trace                         Running\r\n\
EventLog-Application                    Trace                         Running\r\n\
\r\n\
The command completed successfully.\r\n";
    assert_eq!(
        stale_session_names(listing),
        vec!["Trafmon-NetProc".to_string(), "Trafmon-NetProc-1234".to_string()]
    );
}

#[test]
fn only_the_first_word_of_a_line_counts() {
    assert!(stale_session_names("Other Trafmon-NetProc\n").is_empty());
    assert!(stale_session_names("").is_empty());
    assert!(stale_session_names("\n\n   \n").is_empty());
    assert_eq!(stale_session_names("Trafmon-NetProcX"), vec!["Trafmon-NetProcX".to_string()]);
    assert!(stale_session_names("Trafmon-Net").is_empty());
    assert_eq!(SESSION_NAME, "Trafmon-NetProc");
}
