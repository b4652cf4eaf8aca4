//! How a command is to be run: the secrets to keep out of the log, the
//! number of attempts, and what to log.

use crate::text::{decimal, decimal_digits, signed_decimal, signed_digits, string_of};
use vstd::prelude::*;

verus! {

/// The greatest number of attempts: the wait before the last of them, two to
/// the power of their number, still fits in 64 bits.
pub const MAX_RETRIES: u32 = 63;

/// How a command is to be run.
#[derive(Debug)]
pub struct CommandArgs {
    /// The secrets: no log line shows one of them.
    pub masq: Vec<String>,
    /// How often the command is tried at most; the first attempt counts.
    pub retries: u32,
    /// Whether what the process writes to standard output is logged.
    pub log_stdout: bool,
    /// Whether what the process writes to standard error is logged.
    pub log_stderr: bool,
    /// Whether the command is only shown and not run.
    pub dry_run: bool,
}

/// How a command is to be run, as plain values.
pub struct CommandArgsView {
    /// The secrets, in the order in which they are masked.
    pub secrets: Seq<Seq<char>>,
    /// How often the command is tried at most.
    pub retries: nat,
    /// Whether standard output is logged.
    pub log_stdout: bool,
    /// Whether standard error is logged.
    pub log_stderr: bool,
    /// Whether the command is only shown and not run.
    pub dry_run: bool,
}

impl CommandArgsView {
    /// The command is tried once at least and `MAX_RETRIES` times at most.
    pub open spec fn valid(self) -> bool {
        1 <= self.retries <= MAX_RETRIES
    }
}

impl View for CommandArgs {
    type V = CommandArgsView;

    open spec fn view(&self) -> CommandArgsView {
        CommandArgsView {
            secrets: self.masq.deep_view(),
            retries: self.retries as nat,
            log_stdout: self.log_stdout,
            log_stderr: self.log_stderr,
            dry_run: self.dry_run,
        }
    }
}

impl CommandArgs {
    /// One attempt, no secrets, standard error logged, standard output not.
    pub fn default() -> (args: CommandArgs)
        ensures
            args@ == (CommandArgsView {
                secrets: Seq::empty(),
                retries: 1,
                log_stdout: false,
                log_stderr: true,
                dry_run: false,
            }),
            args@.valid(),
    {
        let args = CommandArgs {
            masq: Vec::new(),
            retries: 1,
            log_stdout: false,
            log_stderr: true,
            dry_run: false,
        };
        assert(args.masq.deep_view() =~= Seq::empty());
        args
    }

    /// The arguments made of the values given.
    pub fn new(
        masq: Vec<String>,
        retries: u32,
        log_stdout: bool,
        log_stderr: bool,
        dry_run: bool,
    ) -> (args: CommandArgs)
        ensures
            args == (CommandArgs { masq, retries, log_stdout, log_stderr, dry_run }),
    {
        CommandArgs { masq, retries, log_stdout, log_stderr, dry_run }
    }

    /// Whether a command can be run with these arguments: the number of
    /// attempts is one at least and `MAX_RETRIES` at most.
    pub fn is_valid(&self) -> (valid: bool)
        ensures
            valid == self@.valid(),
    {
        1 <= self.retries && self.retries <= MAX_RETRIES
    }
}

impl Default for CommandArgs {
    fn default() -> (args: CommandArgs)
        ensures
            args@ == (CommandArgsView {
                secrets: Seq::empty(),
                retries: 1,
                log_stdout: false,
                log_stderr: true,
                dry_run: false,
            }),
    {
        CommandArgs::default()
    }
}

/// What can stand in an argument vector: a value that writes none, one or
/// several arguments and may mark some of them as secrets.
pub trait AppendCmdImpl {
    /// The arguments that the value writes, in order.
    spec fn arguments(&self) -> Seq<Seq<char>>;

    /// The secrets that the value adds, in order.
    spec fn secrets(&self) -> Seq<Seq<char>>;

    /// Appends the value's arguments to `dst` and its secrets to the secrets
    /// of `args`.
    fn append_cmd(&self, dst: &mut Vec<String>, args: &mut CommandArgs)
        ensures
            final(dst).deep_view() == old(dst).deep_view() + self.arguments(),
            final(args)@ == (CommandArgsView {
                secrets: old(args)@.secrets + self.secrets(),
                ..old(args)@
            }),
    ;
}

/// Marks what it refers to as secret: the arguments that the value writes
/// are kept out of the log.
pub struct MaskSecret<'a, T: AppendCmdImpl + ?Sized + 'a>(pub &'a T);

/// Appends one argument to `dst`.
fn push_argument(dst: &mut Vec<String>, args: &CommandArgs, argument: String)
    ensures
        final(dst).deep_view() == old(dst).deep_view() + seq![argument@],
        args@ == (CommandArgsView { secrets: args@.secrets + Seq::empty(), ..args@ }),
{
    dst.push(argument);
    assert(dst.deep_view() =~= old(dst).deep_view() + seq![argument@]);
    assert(args@.secrets + Seq::empty() =~= args@.secrets);
}

impl AppendCmdImpl for str {
    open spec fn arguments(&self) -> Seq<Seq<char>> {
        seq![self@]
    }

    open spec fn secrets(&self) -> Seq<Seq<char>> {
        Seq::empty()
    }

    fn append_cmd(&self, dst: &mut Vec<String>, args: &mut CommandArgs) {
        push_argument(dst, args, self.to_owned());
    }
}

impl AppendCmdImpl for String {
    open spec fn arguments(&self) -> Seq<Seq<char>> {
        seq![self@]
    }

    open spec fn secrets(&self) -> Seq<Seq<char>> {
        Seq::empty()
    }

    fn append_cmd(&self, dst: &mut Vec<String>, args: &mut CommandArgs) {
        push_argument(dst, args, self.clone());
    }
}

impl AppendCmdImpl for char {
    open spec fn arguments(&self) -> Seq<Seq<char>> {
        seq![seq![*self]]
    }

    open spec fn secrets(&self) -> Seq<Seq<char>> {
        Seq::empty()
    }

    fn append_cmd(&self, dst: &mut Vec<String>, args: &mut CommandArgs) {
        let mut chars: Vec<char> = Vec::new();
        chars.push(*self);
        assert(chars@ =~= seq![*self]);
        push_argument(dst, args, string_of(&chars));
    }
}

impl AppendCmdImpl for u8 {
    open spec fn arguments(&self) -> Seq<Seq<char>> {
        seq![decimal_digits(*self as nat)]
    }

    open spec fn secrets(&self) -> Seq<Seq<char>> {
        Seq::empty()
    }

    fn append_cmd(&self, dst: &mut Vec<String>, args: &mut CommandArgs) {
        push_argument(dst, args, decimal(*self as u64));
    }
}

impl AppendCmdImpl for u16 {
    open spec fn arguments(&self) -> Seq<Seq<char>> {
        seq![decimal_digits(*self as nat)]
    }

    open spec fn secrets(&self) -> Seq<Seq<char>> {
        Seq::empty()
    }

    fn append_cmd(&self, dst: &mut Vec<String>, args: &mut CommandArgs) {
        push_argument(dst, args, decimal(*self as u64));
    }
}

impl AppendCmdImpl for u32 {
    open spec fn arguments(&self) -> Seq<Seq<char>> {
        seq![decimal_digits(*self as nat)]
    }

    open spec fn secrets(&self) -> Seq<Seq<char>> {
        Seq::empty()
    }

    fn append_cmd(&self, dst: &mut Vec<String>, args: &mut CommandArgs) {
        push_argument(dst, args, decimal(*self as u64));
    }
}

impl AppendCmdImpl for u64 {
    open spec fn arguments(&self) -> Seq<Seq<char>> {
        seq![decimal_digits(*self as nat)]
    }

    open spec fn secrets(&self) -> Seq<Seq<char>> {
        Seq::empty()
    }

    fn append_cmd(&self, dst: &mut Vec<String>, args: &mut CommandArgs) {
        push_argument(dst, args, decimal(*self));
    }
}

impl AppendCmdImpl for usize {
    open spec fn arguments(&self) -> Seq<Seq<char>> {
        seq![decimal_digits(*self as nat)]
    }

    open spec fn secrets(&self) -> Seq<Seq<char>> {
        Seq::empty()
    }

    fn append_cmd(&self, dst: &mut Vec<String>, args: &mut CommandArgs) {
        push_argument(dst, args, decimal(*self as u64));
    }
}

impl AppendCmdImpl for i8 {
    open spec fn arguments(&self) -> Seq<Seq<char>> {
        seq![signed_digits(*self as int)]
    }

    open spec fn secrets(&self) -> Seq<Seq<char>> {
        Seq::empty()
    }

    fn append_cmd(&self, dst: &mut Vec<String>, args: &mut CommandArgs) {
        push_argument(dst, args, signed_decimal(*self as i64));
    }
}

impl AppendCmdImpl for i16 {
    open spec fn arguments(&self) -> Seq<Seq<char>> {
        seq![signed_digits(*self as int)]
    }

    open spec fn secrets(&self) -> Seq<Seq<char>> {
        Seq::empty()
    }

    fn append_cmd(&self, dst: &mut Vec<String>, args: &mut CommandArgs) {
        push_argument(dst, args, signed_decimal(*self as i64));
    }
}

impl AppendCmdImpl for i32 {
    open spec fn arguments(&self) -> Seq<Seq<char>> {
        seq![signed_digits(*self as int)]
    }

    open spec fn secrets(&self) -> Seq<Seq<char>> {
        Seq::empty()
    }

    fn append_cmd(&self, dst: &mut Vec<String>, args: &mut CommandArgs) {
        push_argument(dst, args, signed_decimal(*self as i64));
    }
}

impl AppendCmdImpl for i64 {
    open spec fn arguments(&self) -> Seq<Seq<char>> {
        seq![signed_digits(*self as int)]
    }

    open spec fn secrets(&self) -> Seq<Seq<char>> {
        Seq::empty()
    }

    fn append_cmd(&self, dst: &mut Vec<String>, args: &mut CommandArgs) {
        push_argument(dst, args, signed_decimal(*self));
    }
}

impl AppendCmdImpl for isize {
    open spec fn arguments(&self) -> Seq<Seq<char>> {
        seq![signed_digits(*self as int)]
    }

    open spec fn secrets(&self) -> Seq<Seq<char>> {
        Seq::empty()
    }

    fn append_cmd(&self, dst: &mut Vec<String>, args: &mut CommandArgs) {
        push_argument(dst, args, signed_decimal(*self as i64));
    }
}

impl<T: AppendCmdImpl + ?Sized> AppendCmdImpl for &T {
    open spec fn arguments(&self) -> Seq<Seq<char>> {
        (**self).arguments()
    }

    open spec fn secrets(&self) -> Seq<Seq<char>> {
        (**self).secrets()
    }

    fn append_cmd(&self, dst: &mut Vec<String>, args: &mut CommandArgs) {
        (*self).append_cmd(dst, args);
    }
}

impl<T: AppendCmdImpl, U: AppendCmdImpl> AppendCmdImpl for (T, U) {
    open spec fn arguments(&self) -> Seq<Seq<char>> {
        self.0.arguments() + self.1.arguments()
    }

    open spec fn secrets(&self) -> Seq<Seq<char>> {
        self.0.secrets() + self.1.secrets()
    }

    fn append_cmd(&self, dst: &mut Vec<String>, args: &mut CommandArgs) {
        self.0.append_cmd(dst, args);
        self.1.append_cmd(dst, args);
        assert(dst.deep_view() =~= old(dst).deep_view() + self.arguments());
        assert(args@.secrets =~= old(args)@.secrets + self.secrets());
    }
}

impl<T: AppendCmdImpl> AppendCmdImpl for Option<T> {
    open spec fn arguments(&self) -> Seq<Seq<char>> {
        match self {
            Some(value) => value.arguments(),
            None => Seq::empty(),
        }
    }

    open spec fn secrets(&self) -> Seq<Seq<char>> {
        match self {
            Some(value) => value.secrets(),
            None => Seq::empty(),
        }
    }

    fn append_cmd(&self, dst: &mut Vec<String>, args: &mut CommandArgs) {
        match self {
            Some(value) => {
                value.append_cmd(dst, args);
            },
            None => {
                assert(dst.deep_view() =~= old(dst).deep_view() + Seq::empty());
                assert(args@.secrets =~= old(args)@.secrets + Seq::empty());
            },
        }
    }
}

/// The arguments that the values of `items` write, one value after the other.
pub open spec fn all_arguments<T: AppendCmdImpl>(items: Seq<T>) -> Seq<Seq<char>>
    decreases items.len(),
{
    if items.len() == 0 {
        Seq::empty()
    } else {
        all_arguments(items.drop_last()) + items.last().arguments()
    }
}

/// The secrets that the values of `items` add, one value after the other.
pub open spec fn all_secrets<T: AppendCmdImpl>(items: Seq<T>) -> Seq<Seq<char>>
    decreases items.len(),
{
    if items.len() == 0 {
        Seq::empty()
    } else {
        all_secrets(items.drop_last()) + items.last().secrets()
    }
}

impl<T: AppendCmdImpl> AppendCmdImpl for [T] {
    open spec fn arguments(&self) -> Seq<Seq<char>> {
        all_arguments(self@)
    }

    open spec fn secrets(&self) -> Seq<Seq<char>> {
        all_secrets(self@)
    }

    fn append_cmd(&self, dst: &mut Vec<String>, args: &mut CommandArgs) {
        let mut i: usize = 0;
        assert(self@.take(0) =~= Seq::empty());
        assert(dst.deep_view() =~= old(dst).deep_view() + all_arguments(self@.take(0)));
        assert(args@.secrets =~= old(args)@.secrets + all_secrets(self@.take(0)));
        while i < self.len()
            invariant
                i <= self.len(),
                dst.deep_view() == old(dst).deep_view() + all_arguments(self@.take(i as int)),
                args@ == (CommandArgsView {
                    secrets: old(args)@.secrets + all_secrets(self@.take(i as int)),
                    ..old(args)@
                }),
            decreases self.len() - i,
        {
            self[i].append_cmd(dst, args);
            assert(self@.take(i + 1).drop_last() =~= self@.take(i as int));
            assert(self@.take(i + 1).last() == self@[i as int]);
            assert(dst.deep_view() =~= old(dst).deep_view() + all_arguments(self@.take(i + 1)));
            assert(args@.secrets =~= old(args)@.secrets + all_secrets(self@.take(i + 1)));
            i += 1;
        }
        assert(self@.take(self.len() as int) =~= self@);
    }
}

impl<T: AppendCmdImpl> AppendCmdImpl for Vec<T> {
    open spec fn arguments(&self) -> Seq<Seq<char>> {
        all_arguments(self@)
    }

    open spec fn secrets(&self) -> Seq<Seq<char>> {
        all_secrets(self@)
    }

    fn append_cmd(&self, dst: &mut Vec<String>, args: &mut CommandArgs) {
        self.as_slice().append_cmd(dst, args);
    }
}

impl<'a, T: AppendCmdImpl + ?Sized + 'a> AppendCmdImpl for MaskSecret<'a, T> {
    open spec fn arguments(&self) -> Seq<Seq<char>> {
        self.0.arguments()
    }

    open spec fn secrets(&self) -> Seq<Seq<char>> {
        self.0.secrets() + self.0.arguments()
    }

    fn append_cmd(&self, dst: &mut Vec<String>, args: &mut CommandArgs) {
        let first: usize = dst.len();
        self.0.append_cmd(dst, args);
        let ghost inner = args@.secrets;
        let ghost written = self.0.arguments();
        assert(old(dst).deep_view().len() == first);
        assert(dst.deep_view().len() == dst.len());
        assert(dst.len() == first + written.len());
        let mut i: usize = first;
        assert(self.0.arguments().take(0) =~= Seq::empty());
        assert(args@.secrets =~= inner + self.0.arguments().take(0));
        while i < dst.len()
            invariant
                first <= i <= dst.len(),
                first == old(dst).len(),
                written == self.0.arguments(),
                dst.len() == first + written.len(),
                dst.deep_view() == old(dst).deep_view() + written,
                args@ == (CommandArgsView {
                    secrets: inner + self.0.arguments().take(i - first),
                    ..old(args)@
                }),
            decreases dst.len() - i,
        {
            let secret = dst[i].clone();
            assert(secret@ == dst.deep_view()[i as int]);
            assert(dst.deep_view()[i as int] == written[i - first]);
            let ghost before = args.masq.deep_view();
            args.masq.push(secret);
            assert(args.masq.deep_view() =~= before.push(secret@));
            assert(self.0.arguments().take(i - first + 1) =~= self.0.arguments().take(
                i - first,
            ).push(secret@));
            i += 1;
        }
        assert(self.0.arguments().take(dst.len() - first) =~= self.0.arguments());
        assert(args@.secrets =~= old(args)@.secrets + self.secrets());
    }
}

} // verus!
