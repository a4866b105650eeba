//! Unpacking of GOG game installers.
//!
//! The crate holds the rules of the tool: how an installer is recognised, how the three kinds
//! of installer are read and listed, where the files of an extraction go, and how the
//! command line and the window react to what happens. Everything that touches the disk, the
//! screen or a child process is left to the program around it.

// Text, numbers and bytes.
pub mod numbers;
pub mod reader;
pub mod split;
pub mod text;
pub mod text_laws;
pub mod utf8;

// macOS packages.
pub mod cpio;
pub mod cpio_frame_laws;
pub mod cpio_laws;
pub mod inflate;
pub mod odc_laws;
pub mod pkg;
pub mod pkg_error;
pub mod pkg_extract;
pub mod pkg_laws;
pub mod pkg_read_laws;
pub mod pkg_write_laws;
pub mod safe_path;
pub mod safe_path_laws;
pub mod select;
pub mod select_laws;
pub mod toc;
pub mod toc_laws;
pub mod toc_read_laws;
pub mod xar;
pub mod xar_laws;
pub mod xml;

// MojoSetup installers.
pub mod mojo;
pub mod mojo_laws;
pub mod mojo_list_laws;
pub mod unpack;
pub mod zip_archive;

// Inno Setup installers.
pub mod inno;
pub mod inno_laws;

// Where files go.
pub mod layout;
pub mod layout_laws;
pub mod name_laws;
pub mod output_laws;
pub mod paths;
pub mod paths_laws;

// The course of a run.
pub mod cli;
pub mod cli_laws;
pub mod detect;
pub mod detect_laws;
pub mod flow;
pub mod flow_laws;
pub mod gui;
pub mod gui_event_laws;
pub mod gui_laws;
pub mod message_laws;
pub mod messages;
pub mod run_control;
pub mod run_laws;

// The operations together.
pub mod operation_laws;
pub mod view_laws;
