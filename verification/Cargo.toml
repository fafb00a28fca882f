[package]
name = "procwarden"
version = "0.1.0"
edition = "2021"
publish = false

[dependencies]
cap-std = "3"
command-group = "5"
landlock = "0.4"
libc = "0.2"
rand = "0.9"
seccompiler = "0.5"
thiserror = "2"
which = "7"
windows-sys = { version = "0.61", features = [
    "Win32_Foundation",
    "Win32_NetworkManagement_WindowsFilteringPlatform",
    "Win32_NetworkManagement_WindowsFirewall",
    "Win32_Security",
    "Win32_Security_Authorization",
    "Win32_Security_Isolation",
    "Win32_Storage_FileSystem",
    "Win32_System_IO",
    "Win32_System_JobObjects",
    "Win32_System_Kernel",
    "Win32_System_Memory",
    "Win32_System_Pipes",
    "Win32_System_Rpc",
    "Win32_System_Threading",
    "Win32_UI_Shell",
    "Win32_UI_WindowsAndMessaging",
] }
