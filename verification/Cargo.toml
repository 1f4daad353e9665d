[package]
name = "imebind"
version = "0.1.0"
edition = "2021"
publish = false

[dependencies]
windows = { version = "0.61", features = ["Win32_Foundation", "Win32_System_Com", "Win32_System_Ole", "Win32_UI_TextServices", "Win32_UI_Input_KeyboardAndMouse", "Win32_UI_WindowsAndMessaging", "Win32_UI_Shell", "Win32_System_LibraryLoader", "Win32_System_Threading", "Win32_System_Console", "Win32_Storage_FileSystem", "Win32_System_SystemInformation", "Win32_UI_HiDpi", "Win32_Graphics_Gdi", "Win32_Security"] }
