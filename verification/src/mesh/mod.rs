pub mod yggdrasil;
