pub mod deb_reader;
pub mod deb_files;
pub mod dpkg;
