use kdlfmt_core::FmtError;

#[test]
fn fmt_error_is_debug_and_display() {
    let io_err = std::io::Error::new(std::io::ErrorKind::NotFound, "missing");
    let err = FmtError::Io(io_err);
    let _ = format!("{err:?}");
    let _ = err.message();
}
