//! Decisions of the volume-creation sequence: where the password
//! comes from, what the volume is called, where the container file
//! goes, and what a creation or import request resolves to. The
//! caller performs the container, mount and archive steps and hands
//! their outcomes back.

use vstd::prelude::*;
use crate::cli::{NewCommand, ImportCommand};

verus! {

/// Where the passphrase of a new volume comes from.
#[derive(Clone, Copy, PartialEq, Eq, Structural, Debug)]
pub enum PasswordSource {
    /// The caller supplied one.
    Explicit,
    /// A random one is generated: the volume is a pure scratch volume
    /// (not retained, nothing imported), so nobody needs to know it.
    Generated,
    /// The user must be asked: the container outlives the session or
    /// is seeded from user data.
    Prompt,
}

/// The password policy: an explicit password always wins; without
/// one, a scratch volume gets a generated password and anything
/// retained or imported prompts.
pub open spec fn spec_password_source(
    has_password: bool,
    keep_dmg: bool,
    importing: bool,
) -> PasswordSource {
    if has_password {
        PasswordSource::Explicit
    } else if !keep_dmg && !importing {
        PasswordSource::Generated
    } else {
        PasswordSource::Prompt
    }
}

/// Decides where the passphrase of a new volume comes from.
pub fn choose_password_source(has_password: bool, keep_dmg: bool, importing: bool) -> (r:
    PasswordSource)
    ensures
        r == spec_password_source(has_password, keep_dmg, importing),
{
    if has_password {
        PasswordSource::Explicit
    } else if !keep_dmg && !importing {
        PasswordSource::Generated
    } else {
        PasswordSource::Prompt
    }
}

/// Relies on uuid::Uuid::new_v4 and its simple formatting: a fresh
/// random identifier rendered as 32 hexadecimal digits. Nothing is
/// assumed of the value beyond its length.
#[verifier::external_body]
pub(crate) fn generate_token() -> (r: String)
    ensures
        r@.len() == 32,
{
    uuid::Uuid::new_v4().simple().to_string()
}

/// The name policy: an explicit name wins; else the base name of the
/// imported archive; else the fixed default label.
pub fn choose_volume_name(explicit: &Option<String>, source_stem: &Option<String>) -> (r: String)
    ensures
        explicit is Some ==> r@ == explicit->0@,
        explicit is None && source_stem is Some ==> r@ == source_stem->0@,
        explicit is None && source_stem is None ==> r@ == "EncryptedScratchpad"@,
{
    match explicit {
        Some(name) => name.clone(),
        None => match source_stem {
            Some(stem) => stem.clone(),
            None => String::from_str("EncryptedScratchpad"),
        },
    }
}

/// The file name of a fresh container: a fixed prefix, a fresh token,
/// and the volume name, with the container extension.
pub open spec fn spec_container_file(token: Seq<char>, name: Seq<char>) -> Seq<char> {
    "encrypted-"@ + token + "-"@ + name + ".dmg"@
}

/// Builds the container file name for a fresh token and volume name.
pub fn container_file_name(token: &str, name: &str) -> (r: String)
    ensures
        r@ == spec_container_file(token@, name@),
{
    let mut s = String::from_str("encrypted-");
    s.append(token);
    s.append("-");
    s.append(name);
    s.append(".dmg");
    proof {
        assert(s@ =~= spec_container_file(token@, name@));
    }
    s
}

/// Why a creation or import request cannot be resolved.
#[derive(Clone, Copy, PartialEq, Eq, Structural, Debug)]
pub enum SessionError {
    /// The import source is not a regular file.
    SourceNotAFile,
    /// A password prompt was needed but no password was supplied.
    PasswordRequired,
    /// The required container size does not fit in the size type.
    SizeOverflow,
}

impl SessionError {
    /// A short account of the error, for the caller to report.
    pub fn message(&self) -> (r: String)
        ensures
            *self is SourceNotAFile ==> r@ == "source archive is not a file"@,
            *self is PasswordRequired ==> r@ == "no password was provided"@,
            *self is SizeOverflow ==> r@ == "archive is too large"@,
    {
        match self {
            SessionError::SourceNotAFile => String::from_str("source archive is not a file"),
            SessionError::PasswordRequired => String::from_str("no password was provided"),
            SessionError::SizeOverflow => String::from_str("archive is too large"),
        }
    }
}

/// A resolved creation request: everything the container, mount and
/// import steps need, fixed before any of them runs.
#[derive(Debug)]
pub struct PendingImage {
    /// The passphrase for the new container.
    pub password: String,
    /// The volume name.
    pub volume_name: String,
    /// The file name for the container, to be placed in a fresh
    /// temporary location by the caller.
    pub container_file: String,
    /// The container size in storage units.
    pub size: u64,
    /// The lifetime of the volume in days.
    pub days: u32,
    /// Whether the container file outlives the mount.
    pub keep_dmg: bool,
    /// The canonical path of the archive to import, when importing.
    pub archive: Option<String>,
}

/// The conditions under which a resolved request carries each field:
/// the password follows the password policy, the name the name
/// policy, and the container file name embeds a fresh token.
pub open spec fn spec_pending_ok(
    p: PendingImage,
    password: Option<Seq<char>>,
    prompted: Option<Seq<char>>,
    keep_dmg: bool,
    importing: bool,
    name: Option<Seq<char>>,
    stem: Option<Seq<char>>,
) -> bool {
    &&& (match password {
        Some(pw) => p.password@ == pw,
        None => if !keep_dmg && !importing {
            p.password@.len() == 32
        } else {
            prompted is Some && p.password@ == prompted->0
        },
    })
    &&& (match name {
        Some(n) => p.volume_name@ == n,
        None => match stem {
            Some(s) => p.volume_name@ == s,
            None => p.volume_name@ == "EncryptedScratchpad"@,
        },
    })
    &&& (exists|t: Seq<char>| t.len() == 32 && p.container_file@ == spec_container_file(
        t,
        p.volume_name@,
    ))
}

/// Resolves a creation request for a fresh scratch volume: picks the
/// password per the password policy (prompting is the caller's part;
/// its result comes in as `prompted`), the volume name, and a fresh
/// container file name. Fails exactly when a prompt was needed and no
/// password came.
pub fn new_command(args: &NewCommand, prompted: Option<String>) -> (r: Result<
    PendingImage,
    SessionError,
>)
    ensures
        r is Err <==> args.image_opts.password is None && args.image_opts.keep_dmg
            && prompted is None,
        r is Err ==> r->Err_0 == SessionError::PasswordRequired,
        r is Ok ==> ({
            let p = r->Ok_0;
            &&& p.size == args.size
            &&& p.days == args.image_opts.days
            &&& p.keep_dmg == args.image_opts.keep_dmg
            &&& p.archive is None
            &&& spec_pending_ok(
                p,
                spec_opt_str_view(args.image_opts.password),
                spec_opt_str_view(prompted),
                args.image_opts.keep_dmg,
                false,
                spec_opt_str_view(args.image_opts.volume_name),
                None,
            )
        }),
{
    let password = match resolve_password(
        &args.image_opts.password,
        args.image_opts.keep_dmg,
        false,
        prompted,
    ) {
        Ok(pw) => pw,
        Err(e) => {
            return Err(e);
        },
    };
    let volume_name = choose_volume_name(&args.image_opts.volume_name, &None);
    let token = generate_token();
    let container_file = container_file_name(token.as_str(), volume_name.as_str());
    Ok(PendingImage {
        password,
        volume_name,
        container_file,
        size: args.size,
        days: args.image_opts.days,
        keep_dmg: args.image_opts.keep_dmg,
        archive: None,
    })
}

/// Resolves an import request: requires the source to be a regular
/// file, sizes the container from the archive's uncompressed bytes
/// plus the extra margin, names the volume after the archive when no
/// name was given, and picks the password per the password policy (an
/// import never generates one). `canonical_source` is the canonical
/// form of the archive path and `source_stem` its base name, both
/// computed by the caller; `archive_bytes` is what the archive
/// listing reported.
pub fn import_command(
    args: &ImportCommand,
    canonical_source: String,
    is_file: bool,
    archive_bytes: u64,
    source_stem: Option<String>,
    prompted: Option<String>,
) -> (r: Result<PendingImage, SessionError>)
    ensures
        r is Err <==> !is_file || archive_bytes / 1024 + 1 + args.extra_size > u64::MAX || (
        args.image_opts.password is None && prompted is None),
        r is Err && !is_file ==> r->Err_0 == SessionError::SourceNotAFile,
        r is Err && is_file && archive_bytes / 1024 + 1 + args.extra_size > u64::MAX
            ==> r->Err_0 == SessionError::SizeOverflow,
        r is Err && is_file && archive_bytes / 1024 + 1 + args.extra_size <= u64::MAX
            ==> r->Err_0 == SessionError::PasswordRequired,
        r is Ok ==> ({
            let p = r->Ok_0;
            &&& p.size == archive_bytes / 1024 + 1 + args.extra_size
            &&& p.days == args.image_opts.days
            &&& p.keep_dmg == args.image_opts.keep_dmg
            &&& p.archive is Some && p.archive->0@ == canonical_source@
            &&& spec_pending_ok(
                p,
                spec_opt_str_view(args.image_opts.password),
                spec_opt_str_view(prompted),
                args.image_opts.keep_dmg,
                true,
                spec_opt_str_view(args.image_opts.volume_name),
                spec_opt_str_view(source_stem),
            )
        }),
{
    if !is_file {
        return Err(SessionError::SourceNotAFile);
    }
    let size = match crate::archive::required_container_size(archive_bytes, args.extra_size) {
        Some(s) => s,
        None => {
            return Err(SessionError::SizeOverflow);
        },
    };
    let password = match resolve_password(
        &args.image_opts.password,
        args.image_opts.keep_dmg,
        true,
        prompted,
    ) {
        Ok(pw) => pw,
        Err(e) => {
            return Err(e);
        },
    };
    let volume_name = choose_volume_name(&args.image_opts.volume_name, &source_stem);
    let token = generate_token();
    let container_file = container_file_name(token.as_str(), volume_name.as_str());
    Ok(PendingImage {
        password,
        volume_name,
        container_file,
        size,
        days: args.image_opts.days,
        keep_dmg: args.image_opts.keep_dmg,
        archive: Some(canonical_source),
    })
}

/// The view of an optional string.
pub open spec fn spec_opt_str_view(m: Option<String>) -> Option<Seq<char>> {
    match m {
        Some(s) => Some(s@),
        None => None,
    }
}

/// Resolves the password per the password policy. Fails exactly when
/// a prompt was needed and no prompted password came.
fn resolve_password(
    password: &Option<String>,
    keep_dmg: bool,
    importing: bool,
    prompted: Option<String>,
) -> (r: Result<String, SessionError>)
    ensures
        r is Err <==> password is None && !(!keep_dmg && !importing) && prompted is None,
        r is Err ==> r->Err_0 == SessionError::PasswordRequired,
        r is Ok ==> (match *password {
            Some(ref pw) => r->Ok_0@ == pw@,
            None => if !keep_dmg && !importing {
                r->Ok_0@.len() == 32
            } else {
                prompted is Some && r->Ok_0@ == prompted->0@
            },
        }),
{
    match password {
        Some(pw) => Ok(pw.clone()),
        None => {
            if !keep_dmg && !importing {
                Ok(generate_token())
            } else {
                match prompted {
                    Some(pw) => Ok(pw),
                    None => Err(SessionError::PasswordRequired),
                }
            }
        },
    }
}

} // verus!
