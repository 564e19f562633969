//! Parameters of the machine-control tools offered to MCP clients. A
//! missing optional field takes its default (`false`, empty, zero).

use vstd::prelude::*;

verus! {

pub struct ListConfigEntriesParams {
    /// Request a fresh dump instead of serving the last cached one.
    pub force_refresh: bool,
}

pub struct GetConfigEntryParams {
    /// Full FluidNC config path, e.g. "axes/x/steps_per_mm".
    pub path: String,
}

pub struct UpdateConfigEntryParams {
    /// Full FluidNC config path.
    pub path: String,
    /// New value, as a string.
    pub value: String,
    /// Also persist the change to flash after writing it.
    pub save: bool,
}

pub struct ListFilesParams {
    /// SD directory path, e.g. "/" or "/jobs"; empty means the root.
    pub parent: String,
}

pub struct DeleteFileParams {
    /// SD-absolute path of the file to delete, e.g. "/sub/job.nc".
    pub path: String,
}

pub struct UploadFileParams {
    /// SD directory to upload into.
    pub dir: String,
    /// Path of the local file to upload.
    pub local_path: String,
}

pub struct ParseSdToolpathParams {
    /// SD-absolute path of the G-code file to parse.
    pub path: String,
}

pub struct LoadLocalToolpathParams {
    /// Path of a local G-code file to parse.
    pub local_path: String,
}

pub struct StartJobParams {
    /// Path of the G-code file on the machine's SD card.
    pub path: String,
    /// Line index to resume from; 0 starts from the beginning.
    pub start_index: u64,
}

pub struct ConnectParams {
    /// Hostname or IP address of the machine.
    pub host: String,
}

pub struct ZeroParams {
    /// Axis letters to zero; empty means the default X+Y zero.
    pub axes: Vec<String>,
}

pub struct SendLineParams {
    /// Raw G-code or `$`-command line.
    pub line: String,
}

pub struct SendRealtimeParams {
    /// Single realtime byte to send (0-255).
    pub byte: u32,
}

pub struct WriteSettingParams {
    /// Full FluidNC config path.
    pub path: String,
    /// New value, as a string.
    pub value: String,
}

pub struct HostParams {
    /// Hostname or IP address of the machine.
    pub host: String,
}

impl Default for ListConfigEntriesParams {
    fn default() -> (p: ListConfigEntriesParams)
        ensures
            !p.force_refresh,
    {
        ListConfigEntriesParams { force_refresh: false }
    }
}

impl Default for ListFilesParams {
    fn default() -> (p: ListFilesParams)
        ensures
            p.parent@.len() == 0,
    {
        ListFilesParams { parent: String::new() }
    }
}

} // verus!
