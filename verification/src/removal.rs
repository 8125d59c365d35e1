//! The marker of a package removal: how it is set and how it is cleared.
//!
//! Disables are blocked while the marker stands.  It is set before the records
//! are restored, and where its removal may be lost it is set again.
use crate::fingerprint::IdentityModel;
use crate::function::FileMetadata;
use crate::helper::{
    exit_ok, gate_check, gate_file, gate_state, ok_exit, GateReading, HelperExit,
};
use crate::recovery::{disable_step, DisableEventModel};
use crate::text::{debug_form, debug_text, joined, joined3, text_result};
use vstd::prelude::*;

verus! {

// Setting the marker.
/// What happened while the marker is set.
#[derive(Debug)]
pub enum EnsureEvent {
    /// The marker was created, or opened where it was there already.
    Opened(Result<FileMetadata, String>),
    /// It cannot be created because it is there already.
    Exists,
    NotCreated(String),
    NotOpened(String),
    FileSynced(Result<(), String>),
    DirectorySynced(Result<(), String>),
}

#[derive(Debug)]
pub enum EnsureNext {
    /// Open the marker that is there.
    Open,
    SyncFile,
    SyncDirectory,
    Done(Result<(), String>),
}

pub enum EnsureNextModel {
    Open,
    SyncFile,
    SyncDirectory,
    Done(Result<(), Seq<char>>),
}

impl View for EnsureNext {
    type V = EnsureNextModel;

    open spec fn view(&self) -> EnsureNextModel {
        match self {
            EnsureNext::Open => EnsureNextModel::Open,
            EnsureNext::SyncFile => EnsureNextModel::SyncFile,
            EnsureNext::SyncDirectory => EnsureNextModel::SyncDirectory,
            EnsureNext::Done(r) => EnsureNextModel::Done(text_result(*r)),
        }
    }
}

pub open spec fn ensure_step(event: EnsureEvent) -> EnsureNextModel {
    match event {
        EnsureEvent::Opened(metadata) => match gate_check(text_result(metadata)) {
            Ok(_) => EnsureNextModel::SyncFile,
            Err(e) => EnsureNextModel::Done(Err(e)),
        },
        EnsureEvent::Exists => EnsureNextModel::Open,
        EnsureEvent::NotCreated(e) => EnsureNextModel::Done(
            Err("cannot create Controwly removal gate: "@ + e@),
        ),
        EnsureEvent::NotOpened(e) => EnsureNextModel::Done(
            Err("cannot open Controwly removal gate: "@ + e@),
        ),
        EnsureEvent::FileSynced(Ok(_)) => EnsureNextModel::SyncDirectory,
        EnsureEvent::FileSynced(Err(e)) => EnsureNextModel::Done(
            Err("cannot sync Controwly removal gate: "@ + e@),
        ),
        EnsureEvent::DirectorySynced(r) => EnsureNextModel::Done(text_result(r)),
    }
}

/// One step of setting the marker.
pub fn ensure_removal_gate(event: EnsureEvent) -> (r: EnsureNext)
    ensures
        r@ == ensure_step(event),
{
    match event {
        EnsureEvent::Opened(metadata) => match gate_file(&metadata) {
            Ok(_) => EnsureNext::SyncFile,
            Err(e) => EnsureNext::Done(Err(e)),
        },
        EnsureEvent::Exists => EnsureNext::Open,
        EnsureEvent::NotCreated(e) => EnsureNext::Done(
            Err(joined("cannot create Controwly removal gate: ", e.as_str())),
        ),
        EnsureEvent::NotOpened(e) => EnsureNext::Done(
            Err(joined("cannot open Controwly removal gate: ", e.as_str())),
        ),
        EnsureEvent::FileSynced(Ok(_)) => EnsureNext::SyncDirectory,
        EnsureEvent::FileSynced(Err(e)) => EnsureNext::Done(
            Err(joined("cannot sync Controwly removal gate: ", e.as_str())),
        ),
        EnsureEvent::DirectorySynced(r) => EnsureNext::Done(r),
    }
}

// Clearing the marker.
/// What happened while the marker is cleared.
#[derive(Debug)]
pub enum ClearEvent {
    Missing,
    NotOpened(String),
    Opened(Result<FileMetadata, String>),
    Removed(Result<(), String>),
    DirectorySynced(Result<(), String>),
    /// The marker was to be set again because of the error.
    Ensured { error: String, result: Result<(), String> },
}

#[derive(Debug)]
pub enum ClearNext {
    Remove,
    SyncDirectory,
    /// Set the marker again: its removal may be lost.
    Ensure { error: String },
    Done(Result<(), String>),
}

pub enum ClearNextModel {
    Remove,
    SyncDirectory,
    Ensure { error: Seq<char> },
    Done(Result<(), Seq<char>>),
}

impl View for ClearNext {
    type V = ClearNextModel;

    open spec fn view(&self) -> ClearNextModel {
        match self {
            ClearNext::Remove => ClearNextModel::Remove,
            ClearNext::SyncDirectory => ClearNextModel::SyncDirectory,
            ClearNext::Ensure { error } => ClearNextModel::Ensure { error: error@ },
            ClearNext::Done(r) => ClearNextModel::Done(text_result(*r)),
        }
    }
}

/// A result in the form that programmers see.
pub open spec fn result_form(result: Result<(), Seq<char>>) -> Seq<char> {
    match result {
        Ok(_) => "Ok(())"@,
        Err(e) => "Err("@ + debug_form(e) + ")"@,
    }
}

pub open spec fn uncertain_clear(error: Seq<char>, result: Result<(), Seq<char>>) -> Seq<char> {
    "Controwly removal gate clear is uncertain; disables remain blocked: "@ + error
        + "; gate restore: "@ + result_form(result)
}

pub open spec fn clear_step(event: ClearEvent) -> ClearNextModel {
    match event {
        ClearEvent::Missing => ClearNextModel::Done(Ok(())),
        ClearEvent::NotOpened(e) => ClearNextModel::Done(
            Err("cannot open Controwly removal gate: "@ + e@),
        ),
        ClearEvent::Opened(metadata) => match gate_check(text_result(metadata)) {
            Ok(_) => ClearNextModel::Remove,
            Err(e) => ClearNextModel::Done(Err(e)),
        },
        ClearEvent::Removed(Ok(_)) => ClearNextModel::SyncDirectory,
        ClearEvent::Removed(Err(e)) => ClearNextModel::Done(
            Err("cannot clear Controwly removal gate: "@ + e@),
        ),
        ClearEvent::DirectorySynced(Ok(_)) => ClearNextModel::Done(Ok(())),
        ClearEvent::DirectorySynced(Err(e)) => ClearNextModel::Ensure { error: e@ },
        ClearEvent::Ensured { error, result } => ClearNextModel::Done(
            Err(uncertain_clear(error@, text_result(result))),
        ),
    }
}

fn result_text(result: &Result<(), String>) -> (r: String)
    ensures
        r@ == result_form(text_result(*result)),
{
    match result {
        Ok(_) => "Ok(())".to_owned(),
        Err(e) => joined3("Err(", debug_text(e.as_str()).as_str(), ")"),
    }
}

/// One step of clearing the marker.
pub fn clear_removal_gate(event: ClearEvent) -> (r: ClearNext)
    ensures
        r@ == clear_step(event),
{
    match event {
        ClearEvent::Missing => ClearNext::Done(Ok(())),
        ClearEvent::NotOpened(e) => ClearNext::Done(
            Err(joined("cannot open Controwly removal gate: ", e.as_str())),
        ),
        ClearEvent::Opened(metadata) => match gate_file(&metadata) {
            Ok(_) => ClearNext::Remove,
            Err(e) => ClearNext::Done(Err(e)),
        },
        ClearEvent::Removed(Ok(_)) => ClearNext::SyncDirectory,
        ClearEvent::Removed(Err(e)) => ClearNext::Done(
            Err(joined("cannot clear Controwly removal gate: ", e.as_str())),
        ),
        ClearEvent::DirectorySynced(Ok(_)) => ClearNext::Done(Ok(())),
        ClearEvent::DirectorySynced(Err(e)) => ClearNext::Ensure { error: e },
        ClearEvent::Ensured { error, result } => {
            let told = joined3(
                "Controwly removal gate clear is uncertain; disables remain blocked: ",
                error.as_str(),
                "; gate restore: ",
            );
            ClearNext::Done(Err(joined(told.as_str(), result_text(&result).as_str())))
        },
    }
}

// What the helper does about them.
/// The helper ends where the marker is not set; otherwise it restores the
/// records.
pub fn prepare_removal(marked: Result<(), String>) -> (r: Option<HelperExit>)
    ensures
        match r {
            Some(exit) => marked matches Err(e) && exit@ == (5i32, e@),
            None => marked is Ok,
        },
{
    match marked {
        Ok(_) => None,
        Err(message) => Some(HelperExit { code: 5, message }),
    }
}

/// How the helper ends once the marker was to be cleared.
pub fn finish_install(cleared: Result<(), String>) -> (r: HelperExit)
    ensures
        r@ == (match text_result(cleared) {
            Ok(_) => ok_exit(),
            Err(e) => (5i32, e),
        }),
{
    match cleared {
        Ok(_) => exit_ok(),
        Err(message) => HelperExit { code: 5, message },
    }
}

// Laws.
/// A marker that is set is one that blocks disables: where setting it goes on
/// after the marker was opened, a disable that reads it ends.
pub proof fn a_marker_that_is_set_blocks_disables(
    metadata: Result<FileMetadata, String>,
    identity: IdentityModel,
)
    requires
        ensure_step(EnsureEvent::Opened(metadata)) is SyncFile,
    ensures
        gate_state(GateReading::Opened(metadata)) == Ok::<bool, Seq<char>>(true),
        disable_step(
            identity,
            DisableEventModel::GateRead(gate_state(GateReading::Opened(metadata))),
        ) is Exit,
{
}

/// The marker is only said to be set once its directory is on disk, and only
/// said to be cleared once it was missing or its removal is on disk.
pub proof fn markers_are_reported_once_on_disk(set: EnsureEvent, cleared: ClearEvent)
    ensures
        ensure_step(set) == EnsureNextModel::Done(Ok(())) ==> set matches
            EnsureEvent::DirectorySynced(Ok(_)),
        clear_step(cleared) == ClearNextModel::Done(Ok(())) ==> cleared is Missing || cleared
            matches ClearEvent::DirectorySynced(Ok(_)),
{
}

/// Only a sound marker is removed.
pub proof fn only_a_sound_marker_is_removed(event: ClearEvent)
    requires
        clear_step(event) is Remove,
    ensures
        event matches ClearEvent::Opened(Ok(m)) && m.is_file && m.uid == 0 && m.mode & 0o777
            == 0o600,
{
}

/// Where the removal of the marker may be lost, the marker is set again and
/// the clearing fails, whether or not that worked.
pub proof fn an_uncertain_clear_fails(error: String, result: Result<(), String>)
    ensures
        clear_step(ClearEvent::DirectorySynced(Err(error))) == (ClearNextModel::Ensure {
            error: error@,
        }),
        clear_step(ClearEvent::Ensured { error, result }) matches ClearNextModel::Done(r) && r
            is Err,
{
}

} // verus!
