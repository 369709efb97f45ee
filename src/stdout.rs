use vstd::prelude::*;

verus! {

/// The process's standard output stream.
#[verifier::external_type_specification]
#[verifier::external_body]
pub struct ExStdout(std::io::Stdout);

/// Standard output, addressed as a grid of cells by the program that draws on it.
pub struct SeekStdout {
    stdout: std::io::Stdout,
}

impl SeekStdout {
    /// The stream that `self` wraps.
    pub closed spec fn stream(&self) -> std::io::Stdout {
        self.stdout
    }

    /// Wraps `stdout`.
    pub fn from(stdout: std::io::Stdout) -> (s: SeekStdout)
        ensures
            s.stream() == stdout,
    {
        SeekStdout { stdout }
    }

    /// The wrapped stream.
    pub fn into_inner(self) -> (stdout: std::io::Stdout)
        ensures
            stdout == self.stream(),
    {
        self.stdout
    }
}

} // verus!
