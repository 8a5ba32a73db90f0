//! The safe-rename protocol as an explicit state machine.
//!
//! The session never touches a filesystem itself: it hands the driver a
//! request (check whether a sibling exists, rename one sibling to
//! another, or stop with a result), and the driver answers with the
//! event that the operation produced. The contract of `step` pins every
//! transition, including the two-hop dance for case-only renames and its
//! best-effort rollback.

use vstd::prelude::*;
use vstd::pervasive::unreached;

use crate::chars::lower_str;
use crate::chars::to_lower;
use crate::config::NormalizationConfig;
use crate::normalize::normalize_spec;
use crate::normalize::normalize_with_config;

verus! {

/// A failure of the rename protocol, named after what went wrong.
#[derive(Debug)]
pub enum FnormError {
    /// The path could not be inspected, or has no filename component;
    /// `cause` is the driver's account of the underlying failure.
    FileNotFound { path: String, cause: String },
    /// The normalized name already names a different sibling; nothing
    /// was touched.
    TargetExists { path: String },
    /// The underlying rename failed; `cause` is the driver's account of
    /// the failure.
    RenameError { from: String, to: String, cause: String },
}

/// A successful outcome, with what was (or would be) done.
#[derive(Debug)]
pub enum Outcome {
    /// The name was already normalized; nothing to do.
    NoChange { name: String },
    /// Dry run: the rename that a real run would perform.
    WouldRename { from: String, to: String },
    /// The entry was renamed.
    Renamed { from: String, to: String },
}

/// What the session asks its driver to do next. All names are sibling
/// file names, to be resolved against the directory of the session's
/// path.
pub enum Request {
    /// Test whether a sibling with this name exists.
    CheckExists { name: String },
    /// Rename the sibling `from` to the sibling `to`.
    Rename { from: String, to: String },
    /// The protocol is over; this is its result.
    Stop(Result<Outcome, FnormError>),
}

/// The driver's answer to the previous request (or, first, to
/// inspecting the path: the entry's current file name, if the path could
/// be resolved).
pub enum Event {
    Inspected(Result<String, String>),
    ExistsChecked(bool),
    RenameDone(Result<(), String>),
}

/// Where the protocol stands.
pub enum SessionState {
    /// Waiting for the driver to resolve the path's file name.
    Inspecting,
    /// Case-only rename, waiting for the hop onto the temporary name.
    TempRenaming { name: String, temp: String, target: String },
    /// Case-only rename, waiting for the hop from the temporary name to
    /// the target.
    FinalRenaming { name: String, temp: String, target: String },
    /// The second hop failed; waiting for the best-effort restore of the
    /// original name. `cause` is the second hop's failure, to be
    /// reported once the restore has been attempted.
    RollingBack { name: String, temp: String, target: String, cause: String },
    /// Waiting to hear whether the target name is already taken.
    ExistsChecking { name: String, target: String },
    /// Waiting for the one-step rename.
    DirectRenaming { name: String, target: String },
    /// Done; no further event is accepted.
    Finished,
}

/// One rename-protocol run for a single path.
pub struct RenameSession {
    pub path: String,
    pub dry_run: bool,
    pub state: SessionState,
}

impl RenameSession {
    /// Which event kind the session is waiting for.
    pub open spec fn expects(&self, event: Event) -> bool {
        match self.state {
            SessionState::Inspecting => event is Inspected,
            SessionState::TempRenaming { .. } => event is RenameDone,
            SessionState::FinalRenaming { .. } => event is RenameDone,
            SessionState::RollingBack { .. } => event is RenameDone,
            SessionState::ExistsChecking { .. } => event is ExistsChecked,
            SessionState::DirectRenaming { .. } => event is RenameDone,
            SessionState::Finished => false,
        }
    }

    /// How many steps the protocol can still take: every transition
    /// strictly decreases this.
    pub open spec fn rank(&self) -> nat {
        match self.state {
            SessionState::Inspecting => 4,
            SessionState::TempRenaming { .. } => 3,
            SessionState::FinalRenaming { .. } => 2,
            SessionState::RollingBack { .. } => 1,
            SessionState::ExistsChecking { .. } => 2,
            SessionState::DirectRenaming { .. } => 1,
            SessionState::Finished => 0,
        }
    }

    /// A dry-run session never leaves the inspect/finished pair: no
    /// state that could emit a mutation is ever entered.
    pub open spec fn inv(&self) -> bool {
        self.dry_run ==> (self.state is Inspecting || self.state is Finished)
    }

    /// Whether `r` is the request that a session in this state is
    /// waiting to have answered.
    pub open spec fn consistent(&self, r: Request) -> bool {
        match r {
            Request::CheckExists { .. } => self.state is ExistsChecking,
            Request::Rename { .. } => self.state matches SessionState::TempRenaming { .. }
                || self.state matches SessionState::FinalRenaming { .. }
                || self.state matches SessionState::RollingBack { .. }
                || self.state matches SessionState::DirectRenaming { .. },
            Request::Stop(_) => self.state is Finished,
        }
    }

    /// Start a session for `path`. The driver must first inspect the
    /// path and feed the resulting `Inspected` event to `step`.
    pub fn new(path: String, dry_run: bool) -> (r: RenameSession)
        ensures
            r.path@ == path@,
            r.dry_run == dry_run,
            r.state is Inspecting,
            r.inv(),
    {
        RenameSession { path, dry_run, state: SessionState::Inspecting }
    }

    /// Advance the protocol by one event. The ensures clause is the
    /// whole transition relation of the safe-rename protocol.
    pub fn step(&mut self, event: Event, config: &NormalizationConfig) -> (r: Request)
        requires
            old(self).expects(event),
        ensures
            final(self).path@ == old(self).path@,
            final(self).dry_run == old(self).dry_run,
            final(self).rank() < old(self).rank(),
            old(self).inv() ==> final(self).inv(),
            old(self).inv() && old(self).dry_run ==> r is Stop,
            final(self).consistent(r),
            match old(self).state {
                SessionState::Inspecting => match event {
                    Event::Inspected(res) => match res {
                        Result::Err(cause) => {
                            &&& final(self).state is Finished
                            &&& r matches Request::Stop(Result::Err(FnormError::FileNotFound {
                                path,
                                cause: c,
                            })) && path@ == old(self).path@ && c@ == cause@
                        },
                        Result::Ok(name) => {
                            let norm = normalize_spec(config.rules(), name@);
                            if name@ == norm {
                                &&& final(self).state is Finished
                                &&& r matches Request::Stop(Result::Ok(Outcome::NoChange {
                                    name: n,
                                })) && n@ == name@
                            } else if old(self).dry_run {
                                &&& final(self).state is Finished
                                &&& r matches Request::Stop(Result::Ok(Outcome::WouldRename {
                                    from,
                                    to,
                                })) && from@ == name@ && to@ == norm
                            } else if lower_str(name@) == lower_str(norm) {
                                &&& final(self).state matches SessionState::TempRenaming {
                                    name: n,
                                    temp,
                                    target,
                                } && n@ == name@ && temp@ == name@ + ".fnorm-tmp"@ && target@
                                    == norm
                                &&& r matches Request::Rename { from, to } && from@ == name@ && to@
                                    == name@ + ".fnorm-tmp"@
                            } else {
                                &&& final(self).state matches SessionState::ExistsChecking {
                                    name: n,
                                    target,
                                } && n@ == name@ && target@ == norm
                                &&& r matches Request::CheckExists { name: t } && t@ == norm
                            }
                        },
                    },
                    _ => true,
                },
                SessionState::TempRenaming { name, temp, target } => match event {
                    Event::RenameDone(res) => match res {
                        Result::Ok(u) => {
                            &&& final(self).state matches SessionState::FinalRenaming {
                                name: n,
                                temp: tm,
                                target: tg,
                            } && n@ == name@ && tm@ == temp@ && tg@ == target@
                            &&& r matches Request::Rename { from, to } && from@ == temp@ && to@
                                == target@
                        },
                        Result::Err(cause) => {
                            &&& final(self).state is Finished
                            &&& r matches Request::Stop(Result::Err(FnormError::RenameError {
                                from,
                                to,
                                cause: c,
                            })) && from@ == name@ && to@ == temp@ && c@ == cause@
                        },
                    },
                    _ => true,
                },
                SessionState::FinalRenaming { name, temp, target } => match event {
                    Event::RenameDone(res) => match res {
                        Result::Ok(u) => {
                            &&& final(self).state is Finished
                            &&& r matches Request::Stop(Result::Ok(Outcome::Renamed { from, to }))
                                && from@ == name@ && to@ == target@
                        },
                        Result::Err(cause) => {
                            &&& final(self).state matches SessionState::RollingBack {
                                name: n,
                                temp: tm,
                                target: tg,
                                cause: c,
                            } && n@ == name@ && tm@ == temp@ && tg@ == target@ && c@ == cause@
                            &&& r matches Request::Rename { from, to } && from@ == temp@ && to@
                                == name@
                        },
                    },
                    _ => true,
                },
                SessionState::RollingBack { name, temp, target, cause } => match event {
                    Event::RenameDone(_) => {
                        &&& final(self).state is Finished
                        &&& r matches Request::Stop(Result::Err(FnormError::RenameError {
                            from,
                            to,
                            cause: c,
                        })) && from@ == temp@ && to@ == target@ && c@ == cause@
                    },
                    _ => true,
                },
                SessionState::ExistsChecking { name, target } => match event {
                    Event::ExistsChecked(ex) => if ex {
                        &&& final(self).state is Finished
                        &&& r matches Request::Stop(Result::Err(FnormError::TargetExists { path }))
                            && path@ == target@
                    } else {
                        &&& final(self).state matches SessionState::DirectRenaming {
                            name: n,
                            target: tg,
                        } && n@ == name@ && tg@ == target@
                        &&& r matches Request::Rename { from, to } && from@ == name@ && to@
                            == target@
                    },
                    _ => true,
                },
                SessionState::DirectRenaming { name, target } => match event {
                    Event::RenameDone(res) => match res {
                        Result::Ok(u) => {
                            &&& final(self).state is Finished
                            &&& r matches Request::Stop(Result::Ok(Outcome::Renamed { from, to }))
                                && from@ == name@ && to@ == target@
                        },
                        Result::Err(cause) => {
                            &&& final(self).state is Finished
                            &&& r matches Request::Stop(Result::Err(FnormError::RenameError {
                                from,
                                to,
                                cause: c,
                            })) && from@ == name@ && to@ == target@ && c@ == cause@
                        },
                    },
                    _ => true,
                },
                SessionState::Finished => true,
            },
    {
        match &self.state {
            SessionState::Inspecting => {
                match event {
                    Event::Inspected(res) => {
                        match res {
                            Err(cause) => {
                                self.state = SessionState::Finished;
                                Request::Stop(
                                    Err(
                                        FnormError::FileNotFound {
                                            path: self.path.clone(),
                                            cause,
                                        },
                                    ),
                                )
                            },
                            Ok(name) => {
                                let normalized = normalize_with_config(name.as_str(), config);
                                if name == normalized {
                                    self.state = SessionState::Finished;
                                    Request::Stop(Ok(Outcome::NoChange { name }))
                                } else if self.dry_run {
                                    self.state = SessionState::Finished;
                                    Request::Stop(
                                        Ok(Outcome::WouldRename { from: name, to: normalized }),
                                    )
                                } else if to_lower(name.as_str()) == to_lower(normalized.as_str()) {
                                    let mut temp = name.clone();
                                    temp.append(".fnorm-tmp");
                                    let req = Request::Rename {
                                        from: name.clone(),
                                        to: temp.clone(),
                                    };
                                    self.state = SessionState::TempRenaming {
                                        name,
                                        temp,
                                        target: normalized,
                                    };
                                    req
                                } else {
                                    let req = Request::CheckExists { name: normalized.clone() };
                                    self.state = SessionState::ExistsChecking {
                                        name,
                                        target: normalized,
                                    };
                                    req
                                }
                            },
                        }
                    },
                    _ => unreached(),
                }
            },
            SessionState::TempRenaming { name, temp, target } => {
                let name = name.clone();
                let temp = temp.clone();
                let target = target.clone();
                match event {
                    Event::RenameDone(res) => {
                        match res {
                            Ok(_) => {
                                let req = Request::Rename {
                                    from: temp.clone(),
                                    to: target.clone(),
                                };
                                self.state = SessionState::FinalRenaming { name, temp, target };
                                req
                            },
                            Err(cause) => {
                                self.state = SessionState::Finished;
                                Request::Stop(
                                    Err(FnormError::RenameError { from: name, to: temp, cause }),
                                )
                            },
                        }
                    },
                    _ => unreached(),
                }
            },
            SessionState::FinalRenaming { name, temp, target } => {
                let name = name.clone();
                let temp = temp.clone();
                let target = target.clone();
                match event {
                    Event::RenameDone(res) => {
                        match res {
                            Ok(_) => {
                                self.state = SessionState::Finished;
                                Request::Stop(Ok(Outcome::Renamed { from: name, to: target }))
                            },
                            Err(cause) => {
                                let req = Request::Rename {
                                    from: temp.clone(),
                                    to: name.clone(),
                                };
                                self.state = SessionState::RollingBack {
                                    name,
                                    temp,
                                    target,
                                    cause,
                                };
                                req
                            },
                        }
                    },
                    _ => unreached(),
                }
            },
            SessionState::RollingBack { name: _, temp, target, cause } => {
                let temp = temp.clone();
                let target = target.clone();
                let cause = cause.clone();
                self.state = SessionState::Finished;
                Request::Stop(Err(FnormError::RenameError { from: temp, to: target, cause }))
            },
            SessionState::ExistsChecking { name, target } => {
                let name = name.clone();
                let target = target.clone();
                match event {
                    Event::ExistsChecked(ex) => {
                        if ex {
                            self.state = SessionState::Finished;
                            Request::Stop(Err(FnormError::TargetExists { path: target }))
                        } else {
                            let req = Request::Rename { from: name.clone(), to: target.clone() };
                            self.state = SessionState::DirectRenaming { name, target };
                            req
                        }
                    },
                    _ => unreached(),
                }
            },
            SessionState::DirectRenaming { name, target } => {
                let name = name.clone();
                let target = target.clone();
                match event {
                    Event::RenameDone(res) => {
                        self.state = SessionState::Finished;
                        match res {
                            Ok(_) => Request::Stop(Ok(Outcome::Renamed { from: name, to: target })),
                            Err(cause) => Request::Stop(
                                Err(FnormError::RenameError { from: name, to: target, cause }),
                            ),
                        }
                    },
                    _ => unreached(),
                }
            },
            SessionState::Finished => unreached(),
        }
    }
}

impl FnormError {
    /// A display string for the failure, with the error's wording.
    pub fn message(&self) -> (r: String)
        ensures
            match self {
                FnormError::FileNotFound { path, cause } => r@ == "file not found: "@ + path@,
                FnormError::TargetExists { path } => r@ == "target file already exists: \""@
                    + path@ + "\""@,
                FnormError::RenameError { from, to, cause } => r@ == "failed to rename \""@
                    + from@ + "\" to \""@ + to@ + "\": "@ + cause@,
            },
    {
        match self {
            FnormError::FileNotFound { path, cause: _ } => {
                let mut m = "file not found: ".to_owned();
                m.append(path.as_str());
                m
            },
            FnormError::TargetExists { path } => {
                let mut m = "target file already exists: \"".to_owned();
                m.append(path.as_str());
                m.append("\"");
                m
            },
            FnormError::RenameError { from, to, cause } => {
                let mut m = "failed to rename \"".to_owned();
                m.append(from.as_str());
                m.append("\" to \"");
                m.append(to.as_str());
                m.append("\": ");
                m.append(cause.as_str());
                m
            },
        }
    }
}

} // verus!
