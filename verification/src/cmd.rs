//! The outcome of a finished command.

use vstd::prelude::*;
use vstd::utf8::{decode_utf8, valid_utf8};

verus! {

/// What a finished command left behind.
#[derive(Debug)]
pub struct CmdResult {
    pub exit_code: u8,
    pub stdout: Vec<u8>,
    pub stderr: Vec<u8>,
}

/// Why the outcome of a command cannot be used.
#[derive(Debug)]
pub enum CmdError {
    /// An output stream does not hold UTF-8 text.
    NotText,
    /// The command ended with a code other than zero. The streams are given
    /// as text where they hold text.
    Failed { exit_code: u8, stdout: Option<String>, stderr: Option<String> },
}

/// `String::from_utf8` on a copy of the bytes: the text that the bytes encode,
/// or nothing where they are not valid UTF-8.
#[verifier::external_body]
fn utf8_text(bytes: &Vec<u8>) -> (r: Option<String>)
    ensures
        r is Some <==> valid_utf8(bytes@),
        r is Some ==> r.unwrap()@ == decode_utf8(bytes@),
{
    String::from_utf8(bytes.clone()).ok()
}

/// What the outcome of a command can be asked for.
pub trait OutputExt: Sized {
    /// The standard output as text.
    fn stdout_string(&self) -> Result<String, CmdError>;

    /// The standard error as text.
    fn stderr_string(&self) -> Result<String, CmdError>;

    /// Hands the outcome on where the command succeeded.
    fn check_error(self) -> Result<Self, CmdError>;
}

impl CmdResult {
    /// Whether the command ended with code zero.
    pub fn success(&self) -> (r: bool)
        ensures
            r == (self.exit_code == 0),
    {
        self.exit_code == 0
    }
}

impl OutputExt for CmdResult {
    /// The standard output as text, where it is UTF-8.
    fn stdout_string(&self) -> (r: Result<String, CmdError>)
        ensures
            match r {
                Ok(text) => valid_utf8(self.stdout@) && text@ == decode_utf8(self.stdout@),
                Err(e) => e is NotText && !valid_utf8(self.stdout@),
            },
    {
        match utf8_text(&self.stdout) {
            Some(text) => Ok(text),
            None => Err(CmdError::NotText),
        }
    }

    /// The standard error as text, where it is UTF-8.
    fn stderr_string(&self) -> (r: Result<String, CmdError>)
        ensures
            match r {
                Ok(text) => valid_utf8(self.stderr@) && text@ == decode_utf8(self.stderr@),
                Err(e) => e is NotText && !valid_utf8(self.stderr@),
            },
    {
        match utf8_text(&self.stderr) {
            Some(text) => Ok(text),
            None => Err(CmdError::NotText),
        }
    }

    /// Hands the outcome on where the command ended with code zero, and
    /// reports code and output streams where it did not.
    fn check_error(self) -> (r: Result<CmdResult, CmdError>)
        ensures
            match r {
                Ok(same) => self.exit_code == 0 && same == self,
                Err(e) => {
                    &&& self.exit_code != 0
                    &&& e is Failed
                    &&& e->exit_code == self.exit_code
                    &&& e->stdout is Some <==> valid_utf8(self.stdout@)
                    &&& e->stdout is Some ==> e->stdout.unwrap()@ == decode_utf8(self.stdout@)
                    &&& e->stderr is Some <==> valid_utf8(self.stderr@)
                    &&& e->stderr is Some ==> e->stderr.unwrap()@ == decode_utf8(self.stderr@)
                },
            },
    {
        if self.success() {
            Ok(self)
        } else {
            let stdout = utf8_text(&self.stdout);
            let stderr = utf8_text(&self.stderr);
            Err(CmdError::Failed { exit_code: self.exit_code, stdout, stderr })
        }
    }
}

} // verus!
